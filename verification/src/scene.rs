//! The primitives of one frame, and the log from which a later frame replays
//! a part of them.

use crate::bounds_tree::{next_order, top_order, BoundsTree, DrawOrder};
use crate::geometry::{Bounds, ContentMask, Point};
use crate::log::{lemma_log_push, path_models, LogModel, LoggedPrimitives};
use crate::motion::{
    with_animation, MotionSchedule, MotionScheduleBucket, RetainedMotionDamage,
    RetainedMotionDamageFallback,
};
use crate::number::Scalar;
use crate::path::{Path, PathId, PathModel};
use crate::primitive::{
    kind_at, kind_at_spec, lemma_kind_at, EffectQuad, MonochromeSprite, PaintSurface,
    PolychromeSprite, Primitive, PrimitiveKind, PrimitiveModel, Quad, Shadow, SubpixelSprite,
    Underline, KIND_COUNT,
};
use crate::replay::{
    highest, lemma_lowest_push, lemma_operation_order_bounds, lemma_order_bounds,
    lemma_run_total_grows, lemma_union_push, lowest, operation_orders, recorded_orders, run_parts,
    run_total, runs_within, union_all, visible_parts, Replay,
};
use crate::sort::{
    finished_by_texture, finished_stably, lemma_sorted_by_texture_is_by_order,
    sort_stable_if_needed, sort_unstable_if_needed, sorted_by_order, sorted_by_texture, Ordered,
};
use vstd::prelude::*;

verus! {

/// One step of the replay log.
#[derive(Clone, Copy, Debug)]
pub enum PaintOperation<N> {
    /// `len` consecutive primitives of `kind` in the insertion-order log, from
    /// `start` on, all painted with `mask` (the view-local mask inside a
    /// cached view).
    Run { kind: PrimitiveKind, start: u32, len: u32, mask: ContentMask<N> },
    StartLayer(Bounds<N>, DrawOrder),
    EndLayer,
}

/// The lists that a scene is drawn from.
#[verifier::ext_equal]
pub struct DrawModel<N> {
    pub shadows: Seq<Shadow<N>>,
    pub quads: Seq<Quad<N>>,
    pub effects: Seq<EffectQuad<N>>,
    pub paths: Seq<PathModel<N>>,
    pub underlines: Seq<Underline<N>>,
    pub monochrome_sprites: Seq<MonochromeSprite<N>>,
    pub subpixel_sprites: Seq<SubpixelSprite<N>>,
    pub polychrome_sprites: Seq<PolychromeSprite<N>>,
    pub surfaces: Seq<PaintSurface<N>>,
}

impl<N> DrawModel<N> {
    /// Nothing to draw.
    pub open spec fn empty() -> Self {
        DrawModel {
            shadows: Seq::empty(),
            quads: Seq::empty(),
            effects: Seq::empty(),
            paths: Seq::empty(),
            underlines: Seq::empty(),
            monochrome_sprites: Seq::empty(),
            subpixel_sprites: Seq::empty(),
            polychrome_sprites: Seq::empty(),
            surfaces: Seq::empty(),
        }
    }

    /// How many primitives of a kind are drawn.
    pub open spec fn len(self, kind: PrimitiveKind) -> nat {
        match kind {
            PrimitiveKind::Shadow => self.shadows.len(),
            PrimitiveKind::Quad => self.quads.len(),
            PrimitiveKind::Effect => self.effects.len(),
            PrimitiveKind::Path => self.paths.len(),
            PrimitiveKind::Underline => self.underlines.len(),
            PrimitiveKind::MonochromeSprite => self.monochrome_sprites.len(),
            PrimitiveKind::SubpixelSprite => self.subpixel_sprites.len(),
            PrimitiveKind::PolychromeSprite => self.polychrome_sprites.len(),
            PrimitiveKind::Surface => self.surfaces.len(),
        }
    }

    /// How many primitives are drawn.
    pub open spec fn total(self) -> nat {
        self.shadows.len() + self.quads.len() + self.effects.len() + self.paths.len()
            + self.underlines.len() + self.monochrome_sprites.len() + self.subpixel_sprites.len()
            + self.polychrome_sprites.len() + self.surfaces.len()
    }

    /// The order of the primitive of a kind at an index.
    pub open spec fn order(self, kind: PrimitiveKind, index: int) -> DrawOrder {
        match kind {
            PrimitiveKind::Shadow => self.shadows[index].order,
            PrimitiveKind::Quad => self.quads[index].order,
            PrimitiveKind::Effect => self.effects[index].order,
            PrimitiveKind::Path => self.paths[index].order,
            PrimitiveKind::Underline => self.underlines[index].order,
            PrimitiveKind::MonochromeSprite => self.monochrome_sprites[index].order,
            PrimitiveKind::SubpixelSprite => self.subpixel_sprites[index].order,
            PrimitiveKind::PolychromeSprite => self.polychrome_sprites[index].order,
            PrimitiveKind::Surface => self.surfaces[index].order,
        }
    }

    /// The orders of each kind do not fall, as in a finished scene.
    pub open spec fn in_painting_order(self) -> bool {
        forall|kind: PrimitiveKind, i: int, j: int|
            0 <= i <= j < self.len(kind) ==> #[trigger] self.order(kind, i)
                <= #[trigger] self.order(kind, j)
    }

    /// One more primitive to draw: of an effect what the shader reads, and a
    /// path under the number of its place.
    pub open spec fn draw(self, primitive: PrimitiveModel<N>) -> Self {
        match primitive {
            PrimitiveModel::Shadow(shadow) => DrawModel {
                shadows: self.shadows.push(shadow),
                ..self
            },
            PrimitiveModel::Quad(quad) => DrawModel {
                quads: self.quads.push(quad),
                ..self
            },
            PrimitiveModel::Effect(effect) => DrawModel {
                effects: self.effects.push(effect.instance),
                ..self
            },
            PrimitiveModel::Path(path) => DrawModel {
                paths: self.paths.push(PathModel { id: PathId(self.paths.len() as usize), ..path }),
                ..self
            },
            PrimitiveModel::Underline(underline) => DrawModel {
                underlines: self.underlines.push(underline),
                ..self
            },
            PrimitiveModel::MonochromeSprite(sprite) => DrawModel {
                monochrome_sprites: self.monochrome_sprites.push(sprite),
                ..self
            },
            PrimitiveModel::SubpixelSprite(sprite) => DrawModel {
                subpixel_sprites: self.subpixel_sprites.push(sprite),
                ..self
            },
            PrimitiveModel::PolychromeSprite(sprite) => DrawModel {
                polychrome_sprites: self.polychrome_sprites.push(sprite),
                ..self
            },
            PrimitiveModel::Surface(surface) => DrawModel {
                surfaces: self.surfaces.push(surface),
                ..self
            },
        }
    }
}

impl<N: Scalar> DrawModel<N> {
    /// Something that is no effect is drawn at `order` or above it.
    pub open spec fn interleaved(self, order: DrawOrder) -> bool {
        exists|kind: PrimitiveKind, i: int|
            !(kind is Effect) && 0 <= i < self.len(kind) && #[trigger] self.order(kind, i) >= order
    }

    /// The pixels that the motion of the only effect damages, or the first
    /// reason for which the scene does not qualify.
    pub open spec fn motion_damage(self) -> Result<
        RetainedMotionDamage<N>,
        RetainedMotionDamageFallback,
    > {
        let effect = self.effects[0];
        if self.effects.len() == 0 {
            Err(RetainedMotionDamageFallback::NoEffect)
        } else if self.effects.len() > 1 {
            Err(RetainedMotionDamageFallback::MultipleEffects)
        } else if self.surfaces.len() > 0 {
            Err(RetainedMotionDamageFallback::ExternalSurface)
        } else if effect.kind != 0 {
            Err(RetainedMotionDamageFallback::UnsupportedEffect)
        } else if self.interleaved(effect.order) {
            Err(RetainedMotionDamageFallback::InterleavedOrder)
        } else {
            Ok(
                RetainedMotionDamage {
                    bounds: effect.bounds.intersect_spec(effect.content_mask.bounds),
                },
            )
        }
    }
}

/// What a scene remembers besides what it draws.
#[verifier::ext_equal]
pub struct RecordModel<N> {
    /// The replay log.
    pub operations: Seq<PaintOperation<N>>,
    /// The primitives that the replay log refers to.
    pub log: LogModel<N>,
    /// The next primitive starts a new run.
    pub sealed: bool,
    /// The bounds that have been given an order, with that order.
    pub tree: Seq<(Bounds<N>, DrawOrder)>,
    /// The orders of the open layers, the innermost last.
    pub layers: Seq<DrawOrder>,
    /// The order that was given last.
    pub last_order: DrawOrder,
    /// The cadences of the drawn effects.
    pub schedule: Seq<MotionScheduleBucket>,
}

/// What a [`Scene`] is.
#[verifier::ext_equal]
pub struct SceneModel<N> {
    pub record: RecordModel<N>,
    pub drawn: DrawModel<N>,
}

/// Where the runs of a kind end: the number of primitives that they cover.
pub open spec fn runs_end<N>(operations: Seq<PaintOperation<N>>, kind: PrimitiveKind) -> int
    decreases operations.len(),
{
    if operations.len() == 0 {
        0
    } else {
        match operations.last() {
            PaintOperation::Run { kind: run_kind, start, len, .. } if run_kind == kind => start
                + len,
            _ => runs_end(operations.drop_last(), kind),
        }
    }
}

/// The runs of each kind are not empty and follow each other without a gap.
pub open spec fn runs_tile<N>(operations: Seq<PaintOperation<N>>) -> bool {
    forall|i: int|
        0 <= i < operations.len() ==> (#[trigger] operations[i] matches PaintOperation::Run {
            kind,
            start,
            len,
            ..
        } ==> len > 0 && start == runs_end(operations.take(i), kind))
}

/// A primitive with the mask `painted` may join a run with the mask `mask`.
pub open spec fn mask_of_run<N: Scalar>(mask: ContentMask<N>, painted: ContentMask<N>) -> bool {
    mask == painted || mask.same_spec(painted)
}

/// Every primitive of a run was painted with the mask of the run.
pub open spec fn runs_share_mask<N: Scalar>(
    operations: Seq<PaintOperation<N>>,
    log: LogModel<N>,
) -> bool {
    forall|i: int, j: int|
        #![trigger operations[i], log.item(operations[i]->kind, j)]
        0 <= i < operations.len() ==> (operations[i] matches PaintOperation::Run {
            kind,
            start,
            len,
            mask,
        } ==> (start <= j < start + len ==> mask_of_run(mask, log.item(kind, j).content_mask())))
}

/// The replay log after one more primitive, the `index`-th of its kind: it
/// joins the last run if that run just ends there, has the same kind and mask,
/// and was not sealed.
pub open spec fn with_run<N: Scalar>(
    operations: Seq<PaintOperation<N>>,
    sealed: bool,
    kind: PrimitiveKind,
    index: int,
    mask: ContentMask<N>,
) -> Seq<PaintOperation<N>> {
    let fresh = operations.push(
        PaintOperation::Run { kind, start: index as u32, len: 1, mask },
    );
    if operations.len() == 0 || sealed {
        fresh
    } else {
        match operations.last() {
            PaintOperation::Run { kind: run_kind, start, len, mask: run_mask } => {
                if run_kind == kind && start + len == index && run_mask.same_spec(mask) {
                    operations.update(
                        operations.len() - 1,
                        PaintOperation::Run {
                            kind,
                            start,
                            len: (len + 1) as u32,
                            mask: run_mask,
                        },
                    )
                } else {
                    fresh
                }
            },
            _ => fresh,
        }
    }
}

impl<N: Scalar> RecordModel<N> {
    /// The record of a scene that nothing was painted into.
    pub open spec fn empty() -> Self {
        RecordModel {
            operations: Seq::empty(),
            log: LogModel::empty(),
            sealed: false,
            tree: Seq::empty(),
            layers: Seq::empty(),
            last_order: 0,
            schedule: Seq::empty(),
        }
    }

    /// Every logged primitive lies in exactly one run, and was painted with
    /// the mask of that run.
    pub open spec fn wf(self) -> bool {
        &&& runs_tile(self.operations)
        &&& forall|kind: PrimitiveKind| #[trigger]
            self.log.len(kind) == runs_end(self.operations, kind) && self.log.len(kind)
                <= u32::MAX
        &&& runs_share_mask(self.operations, self.log)
    }
}

impl<N: Scalar> SceneModel<N> {
    /// A scene that nothing was painted into.
    pub open spec fn empty() -> Self {
        SceneModel { record: RecordModel::empty(), drawn: DrawModel::empty() }
    }

    /// Everything that was painted is forgotten.
    pub open spec fn cleared(self) -> Self {
        SceneModel {
            record: RecordModel { sealed: self.record.sealed, ..RecordModel::empty() },
            drawn: DrawModel::empty(),
        }
    }

    /// The next primitive starts a new run.
    pub open spec fn seal(self) -> Self {
        SceneModel { record: RecordModel { sealed: true, ..self.record }, ..self }
    }

    /// A layer was opened at a given order.
    pub open spec fn with_layer(self, bounds: Bounds<N>, order: DrawOrder) -> Self {
        SceneModel {
            record: RecordModel {
                layers: self.record.layers.push(order),
                last_order: order,
                operations: self.record.operations.push(
                    PaintOperation::StartLayer(bounds, order),
                ),
                ..self.record
            },
            ..self
        }
    }

    /// A layer was opened above what it overlaps.
    pub open spec fn with_placed_layer(self, bounds: Bounds<N>) -> Self {
        let order = next_order(top_order(self.record.tree, bounds));
        let placed = SceneModel {
            record: RecordModel {
                tree: self.record.tree.push((bounds, order)),
                ..self.record
            },
            ..self
        };
        placed.with_layer(bounds, order)
    }

    /// A layer was opened above the last order.
    pub open spec fn with_hidden_layer(self, bounds: Bounds<N>) -> Self {
        self.with_layer(bounds, next_order(self.record.last_order))
    }

    /// The innermost layer, if any, was closed.
    pub open spec fn without_layer(self) -> Self {
        SceneModel {
            record: RecordModel {
                layers: if self.record.layers.len() == 0 {
                    self.record.layers
                } else {
                    self.record.layers.drop_last()
                },
                operations: self.record.operations.push(PaintOperation::EndLayer),
                ..self.record
            },
            ..self
        }
    }

    /// What a primitive shows when it is drawn with `effective` in place of
    /// its own mask (`None`: with its own).
    pub open spec fn visible(
        primitive: PrimitiveModel<N>,
        effective: Option<ContentMask<N>>,
    ) -> Bounds<N> {
        let mask = match effective {
            Some(mask) => mask,
            None => primitive.content_mask(),
        };
        primitive.bounds().intersect_spec(mask.bounds)
    }

    /// The order of a primitive: the given one; else, where it shows
    /// something, that of the innermost layer or the next one above what it
    /// overlaps; else the next one above the last.
    pub open spec fn order_for(
        self,
        visible: Bounds<N>,
        order: Option<DrawOrder>,
    ) -> DrawOrder {
        match order {
            Some(order) => order,
            None => if visible.is_empty_spec() {
                next_order(self.record.last_order)
            } else if self.record.layers.len() > 0 {
                self.record.layers.last()
            } else {
                next_order(top_order(self.record.tree, visible))
            },
        }
    }

    /// The overlap orders after that: one more entry where they were asked.
    pub open spec fn tree_for(
        self,
        visible: Bounds<N>,
        order: Option<DrawOrder>,
    ) -> Seq<(Bounds<N>, DrawOrder)> {
        if order is None && !visible.is_empty_spec() && self.record.layers.len() == 0 {
            self.record.tree.push((visible, self.order_for(visible, order)))
        } else {
            self.record.tree
        }
    }

    /// The scene after `primitive` was painted. The log receives it with its
    /// own mask, and it is drawn with `effective` if that shows any of it.
    /// What shows nothing leaves no trace where no effective mask is given.
    pub open spec fn painted(
        self,
        primitive: PrimitiveModel<N>,
        effective: Option<ContentMask<N>>,
        order: Option<DrawOrder>,
    ) -> Self {
        let visible = Self::visible(primitive, effective);
        let shows = !visible.is_empty_spec();
        let mask = primitive.content_mask();
        let kind = primitive.kind();
        let placed = primitive.with_order(self.order_for(visible, order));
        let drawn = placed.with_mask(
            match effective {
                Some(effective) => effective,
                None => mask,
            },
        );
        if !shows && effective is None {
            self
        } else {
            SceneModel {
                record: RecordModel {
                    operations: with_run(
                        self.record.operations,
                        self.record.sealed,
                        kind,
                        self.record.log.len(kind) as int,
                        mask,
                    ),
                    log: self.record.log.push(placed),
                    sealed: false,
                    tree: self.tree_for(visible, order),
                    layers: self.record.layers,
                    last_order: self.order_for(visible, order),
                    schedule: if shows {
                        scheduled(self.record.schedule, primitive)
                    } else {
                        self.record.schedule
                    },
                },
                drawn: if shows {
                    self.drawn.draw(drawn)
                } else {
                    self.drawn
                },
            }
        }
    }
}

/// The mask that a primitive with the mask `own` is drawn with under a clip:
/// what both show. Without a clip there is none.
pub open spec fn effective_mask<N: Scalar>(
    clip: Option<ContentMask<N>>,
    own: ContentMask<N>,
) -> Option<ContentMask<N>> {
    match clip {
        Some(clip) => Some(clip.intersect_spec(own)),
        None => None,
    }
}

/// An item of a list is at `order` or above it.
pub open spec fn at_or_above<T: Ordered>(items: Seq<T>, order: DrawOrder) -> bool {
    exists|i: int| 0 <= i < items.len() && (#[trigger] items[i]).order_spec() >= order
}

fn reaches<T: Ordered>(items: &Vec<T>, order: DrawOrder) -> (r: bool)
    ensures
        r == at_or_above(items@, order),
{
    let mut i: usize = 0;
    while i < items.len()
        invariant
            i <= items@.len(),
            forall|j: int| 0 <= j < i ==> (#[trigger] items@[j]).order_spec() < order,
        decreases items@.len() - i,
    {
        if items[i].draw_order() >= order {
            assert(items@[i as int].order_spec() >= order);
            return true;
        }
        i = i + 1;
    }
    false
}

/// The cadences after `primitive` was drawn.
pub open spec fn scheduled<N>(
    schedule: Seq<MotionScheduleBucket>,
    primitive: PrimitiveModel<N>,
) -> Seq<MotionScheduleBucket> {
    match primitive {
        PrimitiveModel::Effect(effect) => match effect.animation {
            Some(animation) => with_animation(schedule, animation),
            None => schedule,
        },
        _ => schedule,
    }
}

proof fn lemma_runs_end_push<N>(operations: Seq<PaintOperation<N>>, op: PaintOperation<N>)
    ensures
        forall|kind: PrimitiveKind| #[trigger]
            runs_end(operations.push(op), kind) == (match op {
                PaintOperation::Run { kind: run_kind, start, len, .. } if run_kind == kind => start
                    + len,
                _ => runs_end(operations, kind),
            }),
        runs_tile(operations) && (op matches PaintOperation::Run { kind, start, len, .. } ==> len
            > 0 && start == runs_end(operations, kind)) ==> runs_tile(operations.push(op)),
{
    let longer = operations.push(op);
    assert(longer.drop_last() =~= operations);
    if runs_tile(operations) && (op matches PaintOperation::Run { kind, start, len, .. } ==> len
        > 0 && start == runs_end(operations, kind)) {
        assert forall|i: int| 0 <= i < longer.len() implies (
        #[trigger] longer[i] matches PaintOperation::Run { kind, start, len, .. } ==> len > 0
            && start == runs_end(longer.take(i), kind)) by {
            if i < operations.len() {
                assert(longer[i] == operations[i]);
                assert(longer.take(i) =~= operations.take(i));
            } else {
                assert(longer.take(i) =~= operations);
            }
        }
    }
}

proof fn lemma_run_within<N>(operations: Seq<PaintOperation<N>>, i: int)
    requires
        runs_tile(operations),
        0 <= i < operations.len(),
    ensures
        operations[i] matches PaintOperation::Run { kind, start, len, .. } ==> len > 0 && start
            + len <= runs_end(operations, kind),
        forall|kind: PrimitiveKind| 0 <= #[trigger] runs_end(operations, kind),
    decreases operations.len(),
{
    let shorter = operations.drop_last();
    assert(operations =~= shorter.push(operations.last()));
    lemma_runs_end_push(shorter, operations.last());
    assert(runs_tile(shorter)) by {
        assert forall|j: int| 0 <= j < shorter.len() implies (
        #[trigger] shorter[j] matches PaintOperation::Run { kind, start, len, .. } ==> len > 0
            && start == runs_end(shorter.take(j), kind)) by {
            assert(shorter[j] == operations[j]);
            assert(shorter.take(j) =~= operations.take(j));
        }
    }
    assert(operations.take(operations.len() - 1) =~= shorter);
    let last = operations[operations.len() - 1];
    if shorter.len() > 0 {
        lemma_run_within(shorter, if i < shorter.len() {
            i
        } else {
            0
        });
        if i < shorter.len() {
            assert(shorter[i] == operations[i]);
        }
    }
}

proof fn lemma_with_run_wf<N: Scalar>(
    record: RecordModel<N>,
    placed: PrimitiveModel<N>,
    mask: ContentMask<N>,
)
    requires
        record.wf(),
        record.log.len(placed.kind()) < u32::MAX,
        placed.content_mask() == mask,
    ensures
        (RecordModel {
            operations: with_run(
                record.operations,
                record.sealed,
                placed.kind(),
                record.log.len(placed.kind()) as int,
                mask,
            ),
            log: record.log.push(placed),
            ..record
        }).wf(),
{
    let kind = placed.kind();
    let ops = record.operations;
    let index = record.log.len(kind) as int;
    let after = with_run(ops, record.sealed, kind, index, mask);
    let log = record.log.push(placed);
    lemma_log_push(record.log, placed);
    assert(index == runs_end(ops, kind));
    let fresh = PaintOperation::Run { kind, start: index as u32, len: 1, mask };
    if after == ops.push(fresh) {
        lemma_runs_end_push(ops, fresh);
        assert forall|i: int, j: int|
            #![trigger after[i], log.item(after[i]->kind, j)]
            0 <= i < after.len() implies (after[i] matches PaintOperation::Run {
            kind: k,
            start,
            len,
            mask: m,
        } ==> (start <= j < start + len ==> mask_of_run(m, log.item(k, j).content_mask()))) by {
            if i < ops.len() {
                assert(after[i] == ops[i]);
                lemma_run_within(ops, i);
                if ops[i] is Run {
                    assert(record.log.item(ops[i]->kind, j) == record.log.item(ops[i]->kind, j));
                }
            }
        }
    } else {
        let shorter = ops.drop_last();
        let last = ops.last();
        assert(ops =~= shorter.push(last));
        lemma_runs_end_push(shorter, last);
        let joined = after.last();
        assert(after =~= shorter.push(joined));
        lemma_runs_end_push(shorter, joined);
        assert(ops.take(ops.len() - 1) =~= shorter);
        assert(last == ops[ops.len() - 1]);
        assert(runs_tile(shorter)) by {
            assert forall|j: int| 0 <= j < shorter.len() implies (
            #[trigger] shorter[j] matches PaintOperation::Run { kind, start, len, .. } ==> len > 0
                && start == runs_end(shorter.take(j), kind)) by {
                assert(shorter[j] == ops[j]);
                assert(shorter.take(j) =~= ops.take(j));
            }
        }
        assert forall|i: int, j: int|
            #![trigger after[i], log.item(after[i]->kind, j)]
            0 <= i < after.len() implies (after[i] matches PaintOperation::Run {
            kind: k,
            start,
            len,
            mask: m,
        } ==> (start <= j < start + len ==> mask_of_run(m, log.item(k, j).content_mask()))) by {
            lemma_run_within(ops, i);
            if i < shorter.len() {
                assert(after[i] == ops[i]);
            }
            if ops[i] is Run {
                assert(record.log.item(ops[i]->kind, j) == record.log.item(ops[i]->kind, j));
            }
        }
    }
}

proof fn lemma_with_order_keeps<N: Scalar>(primitive: PrimitiveModel<N>, order: DrawOrder)
    ensures
        primitive.with_order(order).kind() == primitive.kind(),
        primitive.with_order(order).order() == order,
        primitive.with_order(order).bounds() == primitive.bounds(),
        primitive.with_order(order).content_mask() == primitive.content_mask(),
{
}

/// Painting keeps every logged primitive in exactly one run.
pub proof fn lemma_painted_wf<N: Scalar>(
    scene: SceneModel<N>,
    primitive: PrimitiveModel<N>,
    effective: Option<ContentMask<N>>,
    order: Option<DrawOrder>,
)
    requires
        scene.record.wf(),
        scene.record.log.len(primitive.kind()) < u32::MAX,
    ensures
        scene.painted(primitive, effective, order).record.wf(),
{
    let visible = SceneModel::visible(primitive, effective);
    let placed = primitive.with_order(scene.order_for(visible, order));
    lemma_with_order_keeps(primitive, scene.order_for(visible, order));
    lemma_with_run_wf(scene.record, placed, primitive.content_mask());
}

proof fn lemma_layer_wf<N: Scalar>(record: RecordModel<N>, op: PaintOperation<N>)
    requires
        record.wf(),
        !(op is Run),
    ensures
        (RecordModel { operations: record.operations.push(op), ..record }).wf(),
{
    let ops = record.operations;
    let after = ops.push(op);
    lemma_runs_end_push(ops, op);
    assert forall|i: int, j: int|
        #![trigger after[i], record.log.item(after[i]->kind, j)]
        0 <= i < after.len() implies (after[i] matches PaintOperation::Run {
        kind,
        start,
        len,
        mask,
    } ==> (start <= j < start + len ==> mask_of_run(
        mask,
        record.log.item(kind, j).content_mask(),
    ))) by {
        if i < ops.len() {
            assert(after[i] == ops[i]);
        }
    }
}

/// What a scene remembers besides what it draws.
pub struct SceneRecord<N> {
    paint_operations: Vec<PaintOperation<N>>,
    /// The primitives in insertion order, drawn or not, with the masks they
    /// were painted with (view-local inside a cached view); the replay log
    /// (`paint_operations`) refers to them by kind and range.
    logged: LoggedPrimitives<N>,
    /// Set by [`Scene::len`] (a replay-range boundary) so the next primitive
    /// starts a new run instead of joining the previous one: a range must
    /// begin and end on an operation boundary, or a nested cached view's
    /// range would shift when the log is replayed.
    sealed: bool,
    primitive_bounds: BoundsTree<N>,
    layer_stack: Vec<DrawOrder>,
    /// The order given to the last inserted primitive or layer; a primitive
    /// that is fully clipped (logged, not drawn) is recorded next to it so a
    /// replay keeps it next to its neighbours.
    last_order: DrawOrder,
    motion_schedule: MotionSchedule,
}

impl<N: Scalar> View for SceneRecord<N> {
    type V = RecordModel<N>;

    closed spec fn view(&self) -> RecordModel<N> {
        RecordModel {
            operations: self.paint_operations@,
            log: self.logged@,
            sealed: self.sealed,
            tree: self.primitive_bounds@,
            layers: self.layer_stack@,
            last_order: self.last_order,
            schedule: self.motion_schedule@,
        }
    }
}

/// The primitives of one frame.
pub struct Scene<N> {
    pub record: SceneRecord<N>,
    pub shadows: Vec<Shadow<N>>,
    pub quads: Vec<Quad<N>>,
    pub effects: Vec<EffectQuad<N>>,
    pub paths: Vec<Path<N>>,
    pub underlines: Vec<Underline<N>>,
    pub monochrome_sprites: Vec<MonochromeSprite<N>>,
    pub subpixel_sprites: Vec<SubpixelSprite<N>>,
    pub polychrome_sprites: Vec<PolychromeSprite<N>>,
    pub surfaces: Vec<PaintSurface<N>>,
}

impl<N: Scalar> View for Scene<N> {
    type V = SceneModel<N>;

    open spec fn view(&self) -> SceneModel<N> {
        SceneModel { record: self.record@, drawn: self.drawn() }
    }
}

impl<N: Scalar> Default for Scene<N> {
    fn default() -> (r: Self)
        ensures
            r@ == SceneModel::<N>::empty(),
            r@.record.wf(),
    {
        let record = SceneRecord {
            paint_operations: Vec::new(),
            logged: LoggedPrimitives::new(),
            sealed: false,
            primitive_bounds: BoundsTree::new(),
            layer_stack: Vec::new(),
            last_order: 0,
            motion_schedule: MotionSchedule::default(),
        };
        let scene = Scene {
            record,
            shadows: Vec::new(),
            quads: Vec::new(),
            effects: Vec::new(),
            paths: Vec::new(),
            underlines: Vec::new(),
            monochrome_sprites: Vec::new(),
            subpixel_sprites: Vec::new(),
            polychrome_sprites: Vec::new(),
            surfaces: Vec::new(),
        };
        assert(scene@ =~= SceneModel::<N>::empty());
        scene
    }
}

impl<N: Scalar> Scene<N> {
    /// The lists that the scene is drawn from.
    pub open spec fn drawn(&self) -> DrawModel<N> {
        DrawModel {
            shadows: self.shadows@,
            quads: self.quads@,
            effects: self.effects@,
            paths: path_models(self.paths@),
            underlines: self.underlines@,
            monochrome_sprites: self.monochrome_sprites@,
            subpixel_sprites: self.subpixel_sprites@,
            polychrome_sprites: self.polychrome_sprites@,
            surfaces: self.surfaces@,
        }
    }

    /// Forgets everything that was painted.
    pub fn clear(&mut self)
        ensures
            final(self)@ == (SceneModel {
                record: RecordModel {
                    sealed: old(self)@.record.sealed,
                    ..RecordModel::<N>::empty()
                },
                drawn: DrawModel::empty(),
            }),
            final(self)@ == old(self)@.cleared(),
            final(self)@.record.wf(),
    {
        self.record.paint_operations.clear();
        self.record.logged.clear();
        self.record.primitive_bounds.clear();
        self.record.layer_stack.clear();
        self.record.last_order = 0;
        self.paths.clear();
        self.shadows.clear();
        self.quads.clear();
        self.effects.clear();
        self.underlines.clear();
        self.monochrome_sprites.clear();
        self.subpixel_sprites.clear();
        self.polychrome_sprites.clear();
        self.surfaces.clear();
        self.record.motion_schedule = MotionSchedule::default();
        assert(self@ =~= (SceneModel {
            record: RecordModel { sealed: old(self)@.record.sealed, ..RecordModel::<N>::empty() },
            drawn: DrawModel::empty(),
        }));
    }

    /// The length of the replay log, as the start or the end of a range to
    /// replay: what is painted next starts a new operation.
    pub fn len(&mut self) -> (r: usize)
        ensures
            r == old(self)@.record.operations.len(),
            final(self)@ == old(self)@.seal(),
    {
        self.record.sealed = true;
        assert(self@ =~= old(self)@.seal());
        self.record.paint_operations.len()
    }

    /// Opens a layer: what is painted until it is closed shares its order.
    pub fn push_layer(&mut self, bounds: Bounds<N>)
        requires
            old(self)@.record.wf(),
        ensures
            final(self)@ == old(self)@.with_placed_layer(bounds),
            final(self)@.record.wf(),
    {
        let order: DrawOrder = self.record.primitive_bounds.insert(bounds);
        self.push_layer_with_order(bounds, order);
    }

    /// A layer whose bounds are fully clipped (nothing in it draws now, it
    /// is logged for replay): it takes the next order above the last one,
    /// as hidden primitives do, instead of asking the bounds tree, where its
    /// off-screen bounds intersect nothing and would rank it under content
    /// painted before it.
    pub fn push_layer_hidden(&mut self, bounds: Bounds<N>)
        requires
            old(self)@.record.wf(),
        ensures
            final(self)@ == old(self)@.with_hidden_layer(bounds),
            final(self)@.record.wf(),
    {
        let order: DrawOrder = self.record.last_order.saturating_add(1);
        self.push_layer_with_order(bounds, order);
    }

    fn push_layer_with_order(&mut self, bounds: Bounds<N>, order: DrawOrder)
        requires
            old(self)@.record.wf(),
        ensures
            final(self)@ == old(self)@.with_layer(bounds, order),
            final(self)@.record.wf(),
    {
        self.record.layer_stack.push(order);
        self.record.last_order = order;
        self.record.paint_operations.push(PaintOperation::StartLayer(bounds, order));
        assert(self@ =~= old(self)@.with_layer(bounds, order));
        proof {
            lemma_layer_wf(old(self)@.record, PaintOperation::StartLayer(bounds, order));
        }
    }

    /// Closes the innermost layer.
    pub fn pop_layer(&mut self)
        requires
            old(self)@.record.wf(),
        ensures
            final(self)@ == old(self)@.without_layer(),
            final(self)@.record.wf(),
    {
        let _ = self.record.layer_stack.pop();
        self.record.paint_operations.push(PaintOperation::EndLayer);
        assert(self@ =~= old(self)@.without_layer());
        proof {
            lemma_layer_wf(old(self)@.record, PaintOperation::EndLayer);
        }
    }

    /// Paints `primitive` with its own mask, unless that hides it.
    pub fn insert_primitive(&mut self, primitive: Primitive<N>)
        requires
            old(self)@.record.wf(),
            old(self)@.record.log.len(primitive@.kind()) < u32::MAX,
        ensures
            final(self)@ == old(self)@.painted(primitive@, None, None),
            final(self)@.record.wf(),
    {
        self.insert_primitive_clipped(primitive, None, None);
    }

    /// Inserts `primitive` and records it in the replay log as given. With
    /// `clip`, the drawn copy's content mask is additionally clipped by it
    /// while the log keeps the mask the primitive was painted with: inside
    /// a cached view that mask is the view-local one and `clip` is the mask of
    /// everything above the view (the viewport), which a replay at another
    /// position re-applies fresh. A primitive fully clipped now still goes
    /// into the log then: it may be visible after the move.
    /// With `order`, the primitive takes that draw order instead of asking
    /// the bounds tree.
    pub fn insert_primitive_clipped(
        &mut self,
        primitive: Primitive<N>,
        clip: Option<&ContentMask<N>>,
        order: Option<DrawOrder>,
    )
        requires
            old(self)@.record.wf(),
            old(self)@.record.log.len(primitive@.kind()) < u32::MAX,
        ensures
            final(self)@ == old(self)@.painted(
                primitive@,
                match clip {
                    Some(clip) => Some(clip.intersect_spec(primitive@.content_mask())),
                    None => None,
                },
                order,
            ),
            final(self)@ == old(self)@.painted(
                primitive@,
                effective_mask(
                    match clip {
                        Some(clip) => Some(*clip),
                        None => None,
                    },
                    primitive@.content_mask(),
                ),
                order,
            ),
            final(self)@.record.wf(),
    {
        let effective = match clip {
            Some(clip) => Some(clip.intersect_unique(primitive.content_mask())),
            None => None,
        };
        self.log_and_draw(primitive, effective, order);
    }

    /// Records `primitive` (painted with its own, possibly view-local, mask)
    /// in the log and draws it with `effective` (`None`: its own mask, and a
    /// fully clipped primitive is dropped altogether, as outside a cached
    /// view nothing replays it).
    fn log_and_draw(
        &mut self,
        primitive: Primitive<N>,
        effective: Option<ContentMask<N>>,
        order: Option<DrawOrder>,
    )
        requires
            old(self)@.record.wf(),
            old(self)@.record.log.len(primitive@.kind()) < u32::MAX,
        ensures
            final(self)@ == old(self)@.painted(primitive@, effective, order),
            final(self)@.record.wf(),
    {
        let ghost before = self@;
        let ghost model = primitive@;
        proof {
            lemma_painted_wf(before, model, effective, order);
        }
        let logged_mask = *primitive.content_mask();
        let drawn_mask = match effective {
            Some(mask) => mask,
            None => logged_mask,
        };
        let clipped_bounds = primitive.bounds().intersect(&drawn_mask.bounds);
        let drawn = !clipped_bounds.is_empty();
        if !drawn && effective.is_none() {
            return ;
        }
        let kind = primitive.kind();
        let place: DrawOrder = match order {
            Some(order) => order,
            None => if drawn {
                if self.record.layer_stack.len() > 0 {
                    self.record.layer_stack[self.record.layer_stack.len() - 1]
                } else {
                    self.record.primitive_bounds.insert(clipped_bounds)
                }
            } else {
                // Fully clipped: no tree order. Paint order must still hold
                // once a replay reveals it, and equal orders would let a
                // glyph be drawn under the background painted before it, so
                // every hidden primitive goes one above the last one.
                self.record.last_order.saturating_add(1)
            },
        };
        self.record.last_order = place;
        let placed = primitive.with_order(place);
        if drawn {
            let copy = placed.clone().with_mask(drawn_mask);
            self.draw(copy);
        }
        proof {
            let operations = before.record.operations;
            if operations.len() > 0 {
                lemma_run_within(operations, operations.len() - 1);
                assert(before.record.log.len(operations.last()->kind) <= u32::MAX);
            }
        }
        let index: u32 = self.record.logged.len(kind) as u32;
        self.record.logged.push(placed);
        let sealed = self.record.sealed;
        self.record.sealed = false;
        self.append_run(sealed, kind, index, logged_mask);
        assert(self@ =~= before.painted(model, effective, order));
    }

    /// Puts a primitive into the list that it is drawn from.
    fn draw(&mut self, primitive: Primitive<N>)
        ensures
            final(self)@ == (SceneModel {
                record: RecordModel {
                    schedule: scheduled(old(self)@.record.schedule, primitive@),
                    ..old(self)@.record
                },
                drawn: old(self)@.drawn.draw(primitive@),
            }),
    {
        match primitive {
            Primitive::Shadow(shadow) => self.shadows.push(shadow),
            Primitive::Quad(quad) => self.quads.push(quad),
            Primitive::Effect(effect) => {
                self.effects.push(effect.instance);
                if let Some(animation) = effect.animation {
                    self.record.motion_schedule.register(animation);
                }
            },
            Primitive::Path(path) => {
                let mut path = path;
                path.id = PathId(self.paths.len());
                self.paths.push(path);
            },
            Primitive::Underline(underline) => self.underlines.push(underline),
            Primitive::MonochromeSprite(sprite) => self.monochrome_sprites.push(sprite),
            Primitive::SubpixelSprite(sprite) => self.subpixel_sprites.push(sprite),
            Primitive::PolychromeSprite(sprite) => self.polychrome_sprites.push(sprite),
            Primitive::Surface(surface) => self.surfaces.push(surface),
        }
        assert(self@ =~= (SceneModel {
            record: RecordModel {
                schedule: scheduled(old(self)@.record.schedule, primitive@),
                ..old(self)@.record
            },
            drawn: old(self)@.drawn.draw(primitive@),
        }));
    }

    /// Extends the replay log by the `index`-th primitive of a kind.
    fn append_run(&mut self, sealed: bool, kind: PrimitiveKind, index: u32, mask: ContentMask<N>)
        requires
            index < u32::MAX,
            old(self)@.record.operations.len() > 0 ==> (
            old(self)@.record.operations.last() matches PaintOperation::Run { start, len, .. }
                ==> start + len <= u32::MAX),
        ensures
            final(self)@ == (SceneModel {
                record: RecordModel {
                    operations: with_run(
                        old(self)@.record.operations,
                        sealed,
                        kind,
                        index as int,
                        mask,
                    ),
                    ..old(self)@.record
                },
                ..old(self)@
            }),
    {
        let count: usize = self.record.paint_operations.len();
        if count > 0 && !sealed {
            if let PaintOperation::Run { kind: run_kind, start, len, mask: run_mask } =
                self.record.paint_operations[count - 1] {
                if run_kind == kind && start + len == index && run_mask.same(&mask) {
                    self.record.paint_operations[count - 1] = PaintOperation::Run {
                        kind: run_kind,
                        start,
                        len: len + 1,
                        mask: run_mask,
                    };
                    return ;
                }
            }
        }
        self.record.paint_operations.push(PaintOperation::Run { kind, start: index, len: 1, mask });
    }

    /// Re-inserts the logged range. `clip` is the effective content mask at
    /// the replay site: every logged primitive carries the mask recorded
    /// inside its cached view, and the drawn copy is clipped by `clip` (see
    /// [`Scene::insert_primitive_clipped`]).
    pub fn replay(
        &mut self,
        range: core::ops::Range<usize>,
        prev_scene: &Scene<N>,
        clip: &ContentMask<N>,
    )
        requires
            old(self)@.record.wf(),
            prev_scene@.record.wf(),
            range.start <= range.end <= prev_scene@.record.operations.len(),
            prev_scene.range_replay(range, Point::zero_spec(), *clip).fits(old(self)@),
        ensures
            final(self)@ == prev_scene.range_replay(range, Point::zero_spec(), *clip).applied(
                old(self)@,
            ),
            final(self)@.record.wf(),
    {
        self.replay_translated(range, prev_scene, Point::zero(), clip);
    }

    /// The replay of a range of this scene.
    pub open spec fn range_replay(
        &self,
        range: core::ops::Range<usize>,
        offset: Point<N>,
        clip: ContentMask<N>,
    ) -> Replay<N> {
        Replay {
            operations: self@.record.operations.subrange(range.start as int, range.end as int),
            log: self@.record.log,
            offset,
            clip,
        }
    }

    /// [`Scene::replay`] with every replayed primitive moved by `offset`: a
    /// cached view replayed at a new position. The logged masks move with the
    /// primitives; `clip` (the effective mask at the replay site) clips the
    /// drawn copies afterwards.
    ///
    /// The range keeps the relative draw orders it was recorded with: one
    /// bounds-tree query for the union of what it draws gives the block's
    /// first order, and every primitive and layer is offset from it. Later
    /// primitives that intersect the block land above all of it.
    pub fn replay_translated(
        &mut self,
        range: core::ops::Range<usize>,
        prev_scene: &Scene<N>,
        offset: Point<N>,
        clip: &ContentMask<N>,
    )
        requires
            old(self)@.record.wf(),
            prev_scene@.record.wf(),
            range.start <= range.end <= prev_scene@.record.operations.len(),
            prev_scene.range_replay(range, offset, *clip).fits(old(self)@),
        ensures
            final(self)@ == prev_scene.range_replay(range, offset, *clip).applied(old(self)@),
            final(self)@.record.wf(),
    {
        let ghost replay = prev_scene.range_replay(range, offset, *clip);
        let ghost before = self@;
        let ghost ops = replay.operations;
        proof {
            lemma_subrange_within(prev_scene@.record, range.start as int, range.end as int);
        }
        let (first_order, last_order, drawn_union) = prev_scene.replay_extent(
            range.start,
            range.end,
            offset,
            clip,
        );
        if first_order == u32::MAX {
            return ;
        }
        proof {
            lemma_nonvoid_bounds(recorded_orders(ops, replay.log));
        }
        let base: DrawOrder = match drawn_union {
            Some(union) => self.record.primitive_bounds.insert_block(
                union,
                last_order - first_order,
            ),
            // Nothing of the range draws here (a view still fully outside):
            // it keeps its relative orders above the last one, like a hidden
            // primitive, so a later replay that reveals it stays in order.
            None => self.record.last_order.saturating_add(1),
        };
        assert(self@ =~= replay.announced(before));
        let ghost announced = self@;
        let mut i: usize = range.start;
        while i < range.end
            invariant
                range.start <= i <= range.end <= prev_scene@.record.operations.len(),
                replay == prev_scene.range_replay(range, offset, *clip),
                ops == replay.operations,
                runs_within(ops, replay.log),
                replay.log == prev_scene@.record.log,
                !replay.is_void(),
                replay.fits(before),
                first_order == replay.first(),
                base == replay.base(before),
                self@ == replay.after_operations(announced, base, (i - range.start) as nat),
                self@.record.wf(),
                forall|kind: PrimitiveKind| #[trigger]
                    self@.record.log.len(kind) == before.record.log.len(kind) + run_total(
                        ops.take(i - range.start),
                        kind,
                    ),
            decreases range.end - i,
        {
            let ghost count = i - range.start;
            let ghost here = self@;
            let operation = prev_scene.record.paint_operations[i];
            assert(operation == ops[count]);
            assert(ops.take(count + 1).drop_last() =~= ops.take(count));
            proof {
                assert forall|kind: PrimitiveKind| #[trigger]
                    before.record.log.len(kind) + run_total(ops.take(count + 1), kind)
                        <= u32::MAX by {
                    lemma_run_total_grows(ops, count + 1, kind);
                    assert(before.record.log.len(kind) + run_total(ops, kind) <= u32::MAX);
                }
            }
            // One logged operation becomes exactly one operation again, so
            // the ranges recorded inside this one keep their offsets.
            self.record.sealed = true;
            assert(self@ =~= here.seal());
            match operation {
                PaintOperation::Run { kind, start, len, mask } => {
                    proof {
                        assert(before.record.log.len(kind) + run_total(ops.take(count + 1), kind)
                            <= u32::MAX);
                        assert(self@.record.log.len(kind) == here.record.log.len(kind));
                        assert forall|k: int| 0 <= k < len implies first_order
                            <= #[trigger] replay.log.item(kind, start + k).order()
                            <= replay.last() by {
                            assert(operation_orders(ops[count], replay.log)[k]
                                == replay.log.item(kind, start + k).order());
                            lemma_operation_order_bounds(ops, replay.log, count, k);
                        }
                    }
                    self.replay_run(
                        &prev_scene.record.logged,
                        kind,
                        start,
                        len,
                        offset,
                        clip,
                        mask,
                        base,
                        first_order,
                        Ghost(replay),
                    );
                },
                PaintOperation::StartLayer(bounds, order) => {
                    proof {
                        assert(operation_orders(ops[count], replay.log)[0] == order);
                        lemma_operation_order_bounds(ops, replay.log, count, 0);
                    }
                    self.push_layer_with_order(
                        bounds.translated(offset),
                        base + (order - first_order),
                    );
                },
                PaintOperation::EndLayer => self.pop_layer(),
            }
            assert(self@ == replay.after_operation(here, base, operation));
            i = i + 1;
        }
        assert(ops.len() == range.end - range.start);
    }

    /// The lowest and the highest order of a range, and the union of what it
    /// shows once it is moved.
    fn replay_extent(
        &self,
        start: usize,
        end: usize,
        offset: Point<N>,
        clip: &ContentMask<N>,
    ) -> (r: (DrawOrder, DrawOrder, Option<Bounds<N>>))
        requires
            start <= end <= self@.record.operations.len(),
            runs_within(
                self@.record.operations.subrange(start as int, end as int),
                self@.record.log,
            ),
        ensures
            ({
                let ops = self@.record.operations.subrange(start as int, end as int);
                let orders = recorded_orders(ops, self@.record.log);
                &&& r.0 == lowest(orders)
                &&& r.1 == highest(orders)
                &&& r.2 == union_all(visible_parts(ops, self@.record.log, offset, *clip))
            }),
    {
        let ghost ops = self@.record.operations.subrange(start as int, end as int);
        let ghost log = self@.record.log;
        let mut first_order: DrawOrder = u32::MAX;
        let mut last_order: DrawOrder = 0;
        let mut drawn_union: Option<Bounds<N>> = None;
        let mut i: usize = start;
        assert(ops.take(0) =~= Seq::empty());
        while i < end
            invariant
                start <= i <= end <= self@.record.operations.len(),
                ops == self@.record.operations.subrange(start as int, end as int),
                log == self@.record.log,
                runs_within(ops, log),
                first_order == lowest(recorded_orders(ops.take(i - start), log)),
                last_order == highest(recorded_orders(ops.take(i - start), log)),
                drawn_union == union_all(visible_parts(ops.take(i - start), log, offset, *clip)),
            decreases end - i,
        {
            let ghost count = i - start;
            let operation = self.record.paint_operations[i];
            assert(operation == ops[count]);
            assert(ops.take(count + 1).drop_last() =~= ops.take(count));
            let ghost orders = recorded_orders(ops.take(count), log);
            let ghost parts = visible_parts(ops.take(count), log, offset, *clip);
            let ghost own = operation_orders(operation, log);
            match operation {
                PaintOperation::Run { kind, start: run_start, len, mask } => {
                    let visible = mask.bounds.translated(offset).intersect(&clip.bounds);
                    let run_end: usize = run_start as usize + len as usize;
                    let extents = self.record.logged.scan(kind, run_start as usize, run_end);
                    let mut k: usize = 0;
                    assert(orders + own.take(0) =~= orders);
                    assert(parts + run_parts(log, kind, run_start as int, 0, offset, visible)
                        =~= parts);
                    while k < extents.len()
                        invariant
                            k <= extents@.len(),
                            extents@.len() == len,
                            own.len() == len,
                            forall|j: int|
                                0 <= j < len ==> #[trigger] own[j] == log.item(
                                    kind,
                                    run_start + j,
                                ).order(),
                            forall|j: int|
                                0 <= j < extents@.len() ==> #[trigger] extents@[j] == (
                                    log.item(kind, run_start + j).order(),
                                    log.item(kind, run_start + j).bounds(),
                                ),
                            first_order == lowest(orders + own.take(k as int)),
                            last_order == highest(orders + own.take(k as int)),
                            drawn_union == union_all(
                                parts + run_parts(
                                    log,
                                    kind,
                                    run_start as int,
                                    k as nat,
                                    offset,
                                    visible,
                                ),
                            ),
                        decreases extents@.len() - k,
                    {
                        let (order, bounds) = extents[k];
                        proof {
                            assert(own[k as int] == order);
                            assert(orders + own.take(k + 1) =~= (orders + own.take(
                                k as int,
                            )).push(order));
                            lemma_lowest_push(orders + own.take(k as int), order);
                        }
                        if order < first_order {
                            first_order = order;
                        }
                        if order > last_order {
                            last_order = order;
                        }
                        let drawn = bounds.translated(offset).intersect(&visible);
                        let ghost shown = run_parts(
                            log,
                            kind,
                            run_start as int,
                            k as nat,
                            offset,
                            visible,
                        );
                        if !drawn.is_empty() {
                            proof {
                                assert(parts + shown.push(drawn) =~= (parts + shown).push(drawn));
                                lemma_union_push(parts + shown, drawn);
                            }
                            drawn_union = match drawn_union {
                                Some(union) => Some(union.union(&drawn)),
                                None => Some(drawn),
                            };
                        }
                        k = k + 1;
                    }
                    assert(own.take(k as int) =~= own);
                },
                PaintOperation::StartLayer(_, order) => {
                    proof {
                        assert(orders + own =~= orders.push(order));
                        lemma_lowest_push(orders, order);
                        assert(parts + Seq::<Bounds<N>>::empty() =~= parts);
                    }
                    if order < first_order {
                        first_order = order;
                    }
                    if order > last_order {
                        last_order = order;
                    }
                },
                PaintOperation::EndLayer => {
                    assert(orders + own =~= orders);
                    assert(parts + Seq::<Bounds<N>>::empty() =~= parts);
                },
            }
            i = i + 1;
        }
        assert(ops.take(end - start) =~= ops);
        (first_order, last_order, drawn_union)
    }

    /// Whether there is room in the log for one more primitive of a kind.
    pub fn has_room_for(&self, kind: PrimitiveKind) -> (r: bool)
        ensures
            r == (self@.record.log.len(kind) < u32::MAX),
    {
        self.record.logged.len(kind) < u32::MAX as usize
    }

    /// Whether there are orders left for a replay of the range, and room for
    /// it in the log.
    pub fn can_replay(
        &self,
        range: core::ops::Range<usize>,
        prev_scene: &Scene<N>,
        offset: Point<N>,
        clip: &ContentMask<N>,
    ) -> (r: bool)
        requires
            prev_scene@.record.wf(),
            range.start <= range.end <= prev_scene@.record.operations.len(),
        ensures
            r == prev_scene.range_replay(range, offset, *clip).fits(self@),
    {
        let ghost replay = prev_scene.range_replay(range, offset, *clip);
        proof {
            lemma_subrange_within(prev_scene@.record, range.start as int, range.end as int);
        }
        let (first_order, last_order, drawn_union) = prev_scene.replay_extent(
            range.start,
            range.end,
            offset,
            clip,
        );
        if first_order == u32::MAX {
            return true;
        }
        proof {
            lemma_nonvoid_bounds(recorded_orders(replay.operations, replay.log));
        }
        let base: DrawOrder = match drawn_union {
            Some(union) => self.record.primitive_bounds.peek(union),
            None => self.record.last_order.saturating_add(1),
        };
        if u32::MAX - base < last_order - first_order {
            return false;
        }
        let mut rank: usize = 0;
        while rank < KIND_COUNT
            invariant
                rank <= KIND_COUNT,
                prev_scene@.record.wf(),
                range.start <= range.end <= prev_scene@.record.operations.len(),
                replay == prev_scene.range_replay(range, offset, *clip),
                !replay.is_void(),
                forall|i: int|
                    0 <= i < rank ==> self@.record.log.len(#[trigger] kind_at_spec(i)) + run_total(
                        replay.operations,
                        kind_at_spec(i),
                    ) <= u32::MAX,
            decreases KIND_COUNT - rank,
        {
            let kind = kind_at(rank);
            let logged: usize = self.record.logged.len(kind);
            let copied: u32 = prev_scene.count_in(range.start, range.end, kind);
            if logged > u32::MAX as usize || (u32::MAX - copied) < logged as u32 {
                assert(self@.record.log.len(kind) + run_total(replay.operations, kind) > u32::MAX);
                return false;
            }
            rank = rank + 1;
        }
        proof {
            assert forall|kind: PrimitiveKind| #[trigger]
                self@.record.log.len(kind) + run_total(replay.operations, kind) <= u32::MAX by {
                lemma_kind_at(kind);
                assert(kind_at_spec(kind.rank_spec() as int) == kind);
            }
        }
        true
    }

    /// How many primitives of a kind a range holds.
    fn count_in(&self, start: usize, end: usize, kind: PrimitiveKind) -> (r: u32)
        requires
            self@.record.wf(),
            start <= end <= self@.record.operations.len(),
        ensures
            r == run_total(
                self@.record.operations.subrange(start as int, end as int),
                kind,
            ),
    {
        let ghost ops = self@.record.operations.subrange(start as int, end as int);
        proof {
            lemma_range_total(self@.record, start as int, end as int, kind);
            assert(ops.take(0) =~= Seq::empty());
        }
        let mut count: u32 = 0;
        let mut i: usize = start;
        while i < end
            invariant
                start <= i <= end <= self@.record.operations.len(),
                ops == self@.record.operations.subrange(start as int, end as int),
                run_total(ops, kind) <= u32::MAX,
                count == run_total(ops.take(i - start), kind),
            decreases end - i,
        {
            let operation = self.record.paint_operations[i];
            proof {
                assert(operation == ops[i - start]);
                assert(ops.take(i + 1 - start).drop_last() =~= ops.take(i - start));
                lemma_run_total_grows(ops, i + 1 - start, kind);
            }
            if let PaintOperation::Run { kind: run_kind, len, .. } = operation {
                if run_kind == kind {
                    count = count + len;
                }
            }
            i = i + 1;
        }
        assert(ops.take(end - start) =~= ops);
        count
    }

    /// Puts the drawn primitives in painting order. The kinds that overlap in
    /// a way that depends on their sequence keep it within an order; sprites
    /// go by texture there, as that is what they are batched by.
    pub fn finish(&mut self)
        ensures
            final(self)@.record == old(self)@.record,
            finished_stably(old(self).shadows@, final(self).shadows@),
            finished_stably(old(self).quads@, final(self).quads@),
            finished_stably(old(self).effects@, final(self).effects@),
            finished_stably(old(self).paths@, final(self).paths@),
            finished_stably(old(self).underlines@, final(self).underlines@),
            finished_by_texture(old(self).monochrome_sprites@, final(self).monochrome_sprites@),
            finished_by_texture(old(self).subpixel_sprites@, final(self).subpixel_sprites@),
            finished_by_texture(old(self).polychrome_sprites@, final(self).polychrome_sprites@),
            finished_stably(old(self).surfaces@, final(self).surfaces@),
            final(self).drawn().in_painting_order(),
    {
        sort_stable_if_needed(&mut self.shadows);
        sort_stable_if_needed(&mut self.quads);
        sort_stable_if_needed(&mut self.effects);
        sort_stable_if_needed(&mut self.paths);
        sort_stable_if_needed(&mut self.underlines);
        sort_unstable_if_needed(&mut self.monochrome_sprites);
        sort_unstable_if_needed(&mut self.subpixel_sprites);
        sort_unstable_if_needed(&mut self.polychrome_sprites);
        sort_stable_if_needed(&mut self.surfaces);
        proof {
            self.lemma_lists_in_painting_order();
        }
    }

    proof fn lemma_lists_in_painting_order(&self)
        requires
            sorted_by_order(self.shadows@),
            sorted_by_order(self.quads@),
            sorted_by_order(self.effects@),
            sorted_by_order(self.paths@),
            sorted_by_order(self.underlines@),
            sorted_by_texture(self.monochrome_sprites@),
            sorted_by_texture(self.subpixel_sprites@),
            sorted_by_texture(self.polychrome_sprites@),
            sorted_by_order(self.surfaces@),
        ensures
            self.drawn().in_painting_order(),
    {
        lemma_sorted_by_texture_is_by_order(self.monochrome_sprites@);
        lemma_sorted_by_texture_is_by_order(self.subpixel_sprites@);
        lemma_sorted_by_texture_is_by_order(self.polychrome_sprites@);
        let drawn = self.drawn();
        assert forall|kind: PrimitiveKind, i: int, j: int|
            0 <= i <= j < drawn.len(kind) implies #[trigger] drawn.order(kind, i)
            <= #[trigger] drawn.order(kind, j) by {
            if i < j {
                match kind {
                    PrimitiveKind::Shadow => assert(self.shadows@[i].order_spec()
                        <= self.shadows@[j].order_spec()),
                    PrimitiveKind::Quad => assert(self.quads@[i].order_spec()
                        <= self.quads@[j].order_spec()),
                    PrimitiveKind::Effect => assert(self.effects@[i].order_spec()
                        <= self.effects@[j].order_spec()),
                    PrimitiveKind::Path => assert(self.paths@[i].order_spec()
                        <= self.paths@[j].order_spec()),
                    PrimitiveKind::Underline => assert(self.underlines@[i].order_spec()
                        <= self.underlines@[j].order_spec()),
                    PrimitiveKind::MonochromeSprite => assert(
                    self.monochrome_sprites@[i].order_spec()
                        <= self.monochrome_sprites@[j].order_spec()),
                    PrimitiveKind::SubpixelSprite => assert(self.subpixel_sprites@[i].order_spec()
                        <= self.subpixel_sprites@[j].order_spec()),
                    PrimitiveKind::PolychromeSprite => assert(
                    self.polychrome_sprites@[i].order_spec()
                        <= self.polychrome_sprites@[j].order_spec()),
                    PrimitiveKind::Surface => assert(self.surfaces@[i].order_spec()
                        <= self.surfaces@[j].order_spec()),
                }
            }
        }
    }

    /// The cadences of the drawn effects.
    pub fn motion_schedule(&self) -> (r: &MotionSchedule)
        ensures
            r@ == self@.record.schedule,
    {
        &self.record.motion_schedule
    }

    /// Whether the scene is one retained spinner above everything else, and
    /// then which pixels its motion damages.
    pub fn retained_motion_damage(&self) -> (r: Result<
        RetainedMotionDamage<N>,
        RetainedMotionDamageFallback,
    >)
        ensures
            r == self.drawn().motion_damage(),
    {
        if self.effects.len() == 0 {
            return Err(RetainedMotionDamageFallback::NoEffect);
        }
        if self.effects.len() > 1 {
            return Err(RetainedMotionDamageFallback::MultipleEffects);
        }
        let effect = self.effects[0];
        if self.surfaces.len() > 0 {
            return Err(RetainedMotionDamageFallback::ExternalSurface);
        }
        if effect.kind != 0 {
            return Err(RetainedMotionDamageFallback::UnsupportedEffect);
        }
        let shadows = reaches(&self.shadows, effect.order);
        let quads = reaches(&self.quads, effect.order);
        let paths = reaches(&self.paths, effect.order);
        let underlines = reaches(&self.underlines, effect.order);
        let monochrome = reaches(&self.monochrome_sprites, effect.order);
        let subpixel = reaches(&self.subpixel_sprites, effect.order);
        let polychrome = reaches(&self.polychrome_sprites, effect.order);
        let interleaved = shadows || quads || paths || underlines || monochrome || subpixel
            || polychrome;
        proof {
            self.lemma_interleaved(effect.order);
        }
        if interleaved {
            return Err(RetainedMotionDamageFallback::InterleavedOrder);
        }
        Ok(RetainedMotionDamage { bounds: effect.bounds.intersect(&effect.content_mask.bounds) })
    }

    proof fn lemma_interleaved(&self, order: DrawOrder)
        requires
            self.surfaces@.len() == 0,
        ensures
            self.drawn().interleaved(order) == (at_or_above(self.shadows@, order) || at_or_above(
                self.quads@,
                order,
            ) || at_or_above(self.paths@, order) || at_or_above(self.underlines@, order)
                || at_or_above(self.monochrome_sprites@, order) || at_or_above(
                self.subpixel_sprites@,
                order,
            ) || at_or_above(self.polychrome_sprites@, order)),
    {
        let drawn = self.drawn();
        if at_or_above(self.shadows@, order) {
            let i = choose|i: int|
                0 <= i < self.shadows@.len() && (#[trigger] self.shadows@[i]).order_spec() >= order;
            assert(drawn.order(PrimitiveKind::Shadow, i) >= order);
        }
        if at_or_above(self.quads@, order) {
            let i = choose|i: int|
                0 <= i < self.quads@.len() && (#[trigger] self.quads@[i]).order_spec() >= order;
            assert(drawn.order(PrimitiveKind::Quad, i) >= order);
        }
        if at_or_above(self.paths@, order) {
            let i = choose|i: int|
                0 <= i < self.paths@.len() && (#[trigger] self.paths@[i]).order_spec() >= order;
            assert(drawn.order(PrimitiveKind::Path, i) >= order);
        }
        if at_or_above(self.underlines@, order) {
            let i = choose|i: int|
                0 <= i < self.underlines@.len() && (
                #[trigger] self.underlines@[i]).order_spec() >= order;
            assert(drawn.order(PrimitiveKind::Underline, i) >= order);
        }
        if at_or_above(self.monochrome_sprites@, order) {
            let i = choose|i: int|
                0 <= i < self.monochrome_sprites@.len() && (
                #[trigger] self.monochrome_sprites@[i]).order_spec() >= order;
            assert(drawn.order(PrimitiveKind::MonochromeSprite, i) >= order);
        }
        if at_or_above(self.subpixel_sprites@, order) {
            let i = choose|i: int|
                0 <= i < self.subpixel_sprites@.len() && (
                #[trigger] self.subpixel_sprites@[i]).order_spec() >= order;
            assert(drawn.order(PrimitiveKind::SubpixelSprite, i) >= order);
        }
        if at_or_above(self.polychrome_sprites@, order) {
            let i = choose|i: int|
                0 <= i < self.polychrome_sprites@.len() && (
                #[trigger] self.polychrome_sprites@[i]).order_spec() >= order;
            assert(drawn.order(PrimitiveKind::PolychromeSprite, i) >= order);
        }
        if drawn.interleaved(order) {
            let (kind, i) = choose|kind: PrimitiveKind, i: int|
                !(kind is Effect) && 0 <= i < drawn.len(kind) && #[trigger] drawn.order(kind, i)
                    >= order;
            match kind {
                PrimitiveKind::Shadow => assert(self.shadows@[i].order_spec() >= order),
                PrimitiveKind::Quad => assert(self.quads@[i].order_spec() >= order),
                PrimitiveKind::Path => assert(self.paths@[i].order_spec() >= order),
                PrimitiveKind::Underline => assert(self.underlines@[i].order_spec() >= order),
                PrimitiveKind::MonochromeSprite => assert(self.monochrome_sprites@[i].order_spec()
                    >= order),
                PrimitiveKind::SubpixelSprite => assert(self.subpixel_sprites@[i].order_spec()
                    >= order),
                PrimitiveKind::PolychromeSprite => assert(self.polychrome_sprites@[i].order_spec()
                    >= order),
                _ => {},
            }
        }
    }

    /// Paints the primitives of one run again.
    fn replay_run(
        &mut self,
        logged: &LoggedPrimitives<N>,
        kind: PrimitiveKind,
        start: u32,
        len: u32,
        offset: Point<N>,
        clip: &ContentMask<N>,
        mask: ContentMask<N>,
        base: DrawOrder,
        first_order: DrawOrder,
        Ghost(replay): Ghost<Replay<N>>,
    )
        requires
            old(self)@.record.wf(),
            start + len <= logged@.len(kind),
            start + len <= u32::MAX,
            old(self)@.record.log.len(kind) + len <= u32::MAX,
            replay.log == logged@,
            replay.offset == offset,
            replay.clip == *clip,
            replay.first() == first_order,
            base + (replay.last() - first_order) <= u32::MAX,
            forall|k: int|
                0 <= k < len ==> first_order <= #[trigger] logged@.item(kind, start + k).order()
                    <= replay.last(),
        ensures
            final(self)@ == replay.after_run(
                old(self)@,
                base,
                kind,
                start as int,
                len as nat,
                mask,
            ),
            final(self)@.record.wf(),
            forall|k: PrimitiveKind| #[trigger]
                final(self)@.record.log.len(k) == old(self)@.record.log.len(k) + (if k == kind {
                    len as nat
                } else {
                    0
                }),
    {
        let logged_mask = mask.translated(offset);
        let effective = clip.intersect_unique(&logged_mask);
        let mut k: u32 = 0;
        while k < len
            invariant
                k <= len,
                start + len <= logged@.len(kind),
            start + len <= u32::MAX,
                old(self)@.record.log.len(kind) + len <= u32::MAX,
                replay.log == logged@,
                replay.offset == offset,
                replay.clip == *clip,
                replay.first() == first_order,
                base + (replay.last() - first_order) <= u32::MAX,
                logged_mask == mask.translated_spec(offset),
                effective == clip.intersect_spec(logged_mask),
                forall|j: int|
                    0 <= j < len ==> first_order <= #[trigger] logged@.item(
                        kind,
                        start + j,
                    ).order() <= replay.last(),
                self@ == replay.after_run(
                    old(self)@,
                    base,
                    kind,
                    start as int,
                    k as nat,
                    mask,
                ),
                self@.record.wf(),
                forall|j: PrimitiveKind| #[trigger]
                    self@.record.log.len(j) == old(self)@.record.log.len(j) + (if j == kind {
                        k as nat
                    } else {
                        0
                    }),
            decreases len - k,
        {
            let ghost here = self@;
            let recorded = logged.primitive(kind, start as usize + k as usize);
            let recorded_order: DrawOrder = recorded.order();
            assert(logged@.item(kind, start + k).order() == recorded_order);
            let ghost model = recorded@;
            let moved = recorded.translated(offset).with_mask(logged_mask);
            proof {
                lemma_item_kind(logged@, kind, start + k);
                lemma_moved_keeps(model, offset, logged_mask);
                assert(self@.record.log.len(kind) < u32::MAX);
            }
            let order: DrawOrder = base + (recorded_order - first_order);
            proof {
                lemma_painted_log_len(here, moved@, effective, order);
            }
            self.log_and_draw(moved, Some(effective), Some(order));
            k = k + 1;
        }
    }
}

proof fn lemma_item_kind<N: Scalar>(log: LogModel<N>, kind: PrimitiveKind, index: int)
    ensures
        log.item(kind, index).kind() == kind,
{
}

/// Moving a primitive and giving it another mask keeps its kind and order.
pub proof fn lemma_moved_keeps<N: Scalar>(
    primitive: PrimitiveModel<N>,
    offset: Point<N>,
    mask: ContentMask<N>,
)
    ensures
        primitive.translated(offset).with_mask(mask).kind() == primitive.kind(),
        primitive.translated(offset).with_mask(mask).order() == primitive.order(),
        primitive.translated(offset).with_mask(mask).content_mask() == mask,
        primitive.translated(offset).with_mask(mask).bounds() == primitive.bounds().translated_spec(
            offset,
        ),
{
}

/// What is painted with an effective mask always enters the log.
pub proof fn lemma_painted_log_len<N: Scalar>(
    scene: SceneModel<N>,
    primitive: PrimitiveModel<N>,
    effective: ContentMask<N>,
    order: DrawOrder,
)
    ensures
        scene.painted(primitive, Some(effective), Some(order)).record.log == scene.record.log.push(
            primitive.with_order(order),
        ),
        forall|kind: PrimitiveKind| #[trigger]
            scene.painted(primitive, Some(effective), Some(order)).record.log.len(kind)
                == scene.record.log.len(kind) + (if kind == primitive.kind() {
                1nat
            } else {
                0nat
            }),
{
    lemma_with_order_keeps(primitive, order);
    lemma_log_push(scene.record.log, primitive.with_order(order));
}

proof fn lemma_nonvoid_bounds(orders: Seq<DrawOrder>)
    requires
        lowest(orders) != u32::MAX,
    ensures
        lowest(orders) <= highest(orders),
    decreases orders.len(),
{
    if orders.len() > 0 {
        lemma_order_bounds(orders, 0);
    }
}

proof fn lemma_tiles_add_up<N>(operations: Seq<PaintOperation<N>>, kind: PrimitiveKind)
    requires
        runs_tile(operations),
    ensures
        run_total(operations, kind) == runs_end(operations, kind),
    decreases operations.len(),
{
    if operations.len() > 0 {
        let shorter = operations.drop_last();
        assert forall|j: int| 0 <= j < shorter.len() implies (
        #[trigger] shorter[j] matches PaintOperation::Run { kind, start, len, .. } ==> len > 0
            && start == runs_end(shorter.take(j), kind)) by {
            assert(shorter[j] == operations[j]);
            assert(shorter.take(j) =~= operations.take(j));
        }
        lemma_tiles_add_up(shorter, kind);
        assert(operations[operations.len() - 1] == operations.last());
        assert(operations.take(operations.len() - 1) =~= shorter);
    }
}

proof fn lemma_part_total<N>(
    operations: Seq<PaintOperation<N>>,
    start: int,
    end: int,
    kind: PrimitiveKind,
)
    requires
        0 <= start <= end <= operations.len(),
    ensures
        run_total(operations.subrange(start, end), kind) <= run_total(
            operations.take(end),
            kind,
        ),
    decreases end,
{
    let part = operations.subrange(start, end);
    if start < end {
        lemma_part_total(operations, start, end - 1, kind);
        assert(part.drop_last() =~= operations.subrange(start, end - 1));
        assert(operations.take(end).drop_last() =~= operations.take(end - 1));
        assert(part.last() == operations.take(end).last());
    }
}

/// A range holds no more primitives of a kind than the log does.
proof fn lemma_range_total<N: Scalar>(
    record: RecordModel<N>,
    start: int,
    end: int,
    kind: PrimitiveKind,
)
    requires
        record.wf(),
        0 <= start <= end <= record.operations.len(),
    ensures
        run_total(record.operations.subrange(start, end), kind) <= record.log.len(kind),
        run_total(record.operations.subrange(start, end), kind) <= u32::MAX,
{
    lemma_part_total(record.operations, start, end, kind);
    lemma_run_total_grows(record.operations, end, kind);
    lemma_tiles_add_up(record.operations, kind);
    assert(record.log.len(kind) <= u32::MAX);
}

/// The runs of a range of a well-formed record lie within its log.
pub proof fn lemma_subrange_within<N: Scalar>(record: RecordModel<N>, start: int, end: int)
    requires
        record.wf(),
        0 <= start <= end <= record.operations.len(),
    ensures
        runs_within(record.operations.subrange(start, end), record.log),
{
    let ops = record.operations.subrange(start, end);
    assert forall|i: int| 0 <= i < ops.len() implies (
    #[trigger] ops[i] matches PaintOperation::Run { kind, start, len, .. } ==> len > 0 && start
        + len <= record.log.len(kind) && start + len <= u32::MAX) by {
        assert(ops[i] == record.operations[start + i]);
        lemma_run_within(record.operations, start + i);
        if ops[i] is Run {
            assert(record.log.len(ops[i]->kind) <= u32::MAX);
        }
    }
}

/// A primitive is drawn if and only if the mask shows some of it, and logged
/// if it is drawn or a mask from above the cached view clips it.
pub proof fn lemma_drawn_where_visible<N: Scalar>(
    scene: SceneModel<N>,
    primitive: PrimitiveModel<N>,
    effective: Option<ContentMask<N>>,
    order: Option<DrawOrder>,
    kind: PrimitiveKind,
)
    ensures
        ({
            let after = scene.painted(primitive, effective, order);
            let shows = !SceneModel::visible(primitive, effective).is_empty_spec();
            &&& after.drawn.len(kind) == scene.drawn.len(kind) + (if kind == primitive.kind()
                && shows {
                1nat
            } else {
                0nat
            })
            &&& after.record.log.len(kind) == scene.record.log.len(kind) + (if kind
                == primitive.kind() && (shows || effective is Some) {
                1nat
            } else {
                0nat
            })
        }),
{
    let visible = SceneModel::visible(primitive, effective);
    let placed = primitive.with_order(scene.order_for(visible, order));
    lemma_with_order_keeps(primitive, scene.order_for(visible, order));
    lemma_log_push(scene.record.log, placed);
}

/// What is fully clipped, with a mask from above the cached view, is logged
/// one order above the last one, so that it stays above what was painted
/// before it when a replay reveals it.
pub proof fn lemma_hidden_is_above_the_last<N: Scalar>(
    scene: SceneModel<N>,
    primitive: PrimitiveModel<N>,
    effective: ContentMask<N>,
)
    requires
        SceneModel::visible(primitive, Some(effective)).is_empty_spec(),
    ensures
        ({
            let after = scene.painted(primitive, Some(effective), None);
            let kind = primitive.kind();
            let logged = after.record.log.item(kind, scene.record.log.len(kind) as int);
            &&& logged == primitive.with_order(next_order(scene.record.last_order))
            &&& after.record.last_order == logged.order()
            &&& scene.record.last_order < logged.order() || logged.order() == u32::MAX
            &&& after.drawn == scene.drawn
        }),
{
    let order = next_order(scene.record.last_order);
    lemma_with_order_keeps(primitive, order);
    lemma_log_push(scene.record.log, primitive.with_order(order));
}

} // verus!
