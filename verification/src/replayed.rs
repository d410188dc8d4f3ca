//! What a replayed range becomes, primitive by primitive: what is drawn again
//! and where, what is logged again, and which orders the block takes.

use crate::bounds_tree::{lemma_orders_go_up, DrawOrder};
use crate::geometry::{
    lemma_around_the_corners_of_a_union, lemma_union_is_the_smallest, Bounds, ContentMask, Point,
};
use crate::log::LogModel;
use crate::motion::{bucket_moves, distinct_cadences, lemma_with_animation_moves};
use crate::number::{ordered_numbers, Scalar};
use crate::painting::{is_above_all, lemma_placed_above_all};
use crate::path::{PathId, PathModel};
use crate::primitive::{
    EffectQuad, MonochromeSprite, PaintSurface, PolychromeSprite, PrimitiveKind, PrimitiveModel,
    Quad, Shadow, SubpixelSprite, Underline,
};
use crate::replay::{
    highest, lemma_replay_is_one_to_one, lowest, operation_orders,
    operation_parts, recorded_orders, run_parts, run_total, runs_within, union_all, visible_parts,
    Replay,
};
use crate::scene::{DrawModel, PaintOperation, Scene, SceneModel};
use crate::time::{Duration, Instant};
use vstd::prelude::*;

verus! {

/// One item of a draw list.
pub enum DrawnItem<N> {
    Shadow(Shadow<N>),
    Quad(Quad<N>),
    Effect(EffectQuad<N>),
    Path(PathModel<N>),
    Underline(Underline<N>),
    MonochromeSprite(MonochromeSprite<N>),
    SubpixelSprite(SubpixelSprite<N>),
    PolychromeSprite(PolychromeSprite<N>),
    Surface(PaintSurface<N>),
}

/// The item of the draw list of a kind at an index.
pub open spec fn drawn_item<N: Scalar>(
    drawn: DrawModel<N>,
    kind: PrimitiveKind,
    index: int,
) -> DrawnItem<N> {
    match kind {
        PrimitiveKind::Shadow => DrawnItem::Shadow(drawn.shadows[index]),
        PrimitiveKind::Quad => DrawnItem::Quad(drawn.quads[index]),
        PrimitiveKind::Effect => DrawnItem::Effect(drawn.effects[index]),
        PrimitiveKind::Path => DrawnItem::Path(drawn.paths[index]),
        PrimitiveKind::Underline => DrawnItem::Underline(drawn.underlines[index]),
        PrimitiveKind::MonochromeSprite => DrawnItem::MonochromeSprite(
            drawn.monochrome_sprites[index],
        ),
        PrimitiveKind::SubpixelSprite => DrawnItem::SubpixelSprite(
            drawn.subpixel_sprites[index],
        ),
        PrimitiveKind::PolychromeSprite => DrawnItem::PolychromeSprite(
            drawn.polychrome_sprites[index],
        ),
        PrimitiveKind::Surface => DrawnItem::Surface(drawn.surfaces[index]),
    }
}

/// How a primitive is drawn with a mask, at an order, at a place of its list:
/// with nothing else changed.
pub open spec fn drawn_form<N: Scalar>(
    primitive: PrimitiveModel<N>,
    content_mask: ContentMask<N>,
    order: DrawOrder,
    place: int,
) -> DrawnItem<N> {
    match primitive {
        PrimitiveModel::Shadow(item) => DrawnItem::Shadow(
            Shadow { order, content_mask, ..item },
        ),
        PrimitiveModel::Quad(item) => DrawnItem::Quad(
            Quad { order, content_mask, ..item },
        ),
        PrimitiveModel::Effect(effect) => DrawnItem::Effect(
            EffectQuad { order, content_mask, ..effect.instance },
        ),
        PrimitiveModel::Path(path) => DrawnItem::Path(
            PathModel { id: PathId(place as usize), order, ..path.with_mask(content_mask) },
        ),
        PrimitiveModel::Underline(item) => DrawnItem::Underline(
            Underline { order, content_mask, ..item },
        ),
        PrimitiveModel::MonochromeSprite(item) => DrawnItem::MonochromeSprite(
            MonochromeSprite { order, content_mask, ..item },
        ),
        PrimitiveModel::SubpixelSprite(item) => DrawnItem::SubpixelSprite(
            SubpixelSprite { order, content_mask, ..item },
        ),
        PrimitiveModel::PolychromeSprite(item) => DrawnItem::PolychromeSprite(
            PolychromeSprite { order, content_mask, ..item },
        ),
        PrimitiveModel::Surface(item) => DrawnItem::Surface(
            PaintSurface { order, content_mask, ..item },
        ),
    }
}

impl<N: Scalar> Replay<N> {
    /// The mask that the primitives of a run are drawn with at their new place:
    /// what the clip shows of the moved mask.
    pub open spec fn mask_there(self, mask: ContentMask<N>) -> ContentMask<N> {
        self.clip.intersect_spec(mask.translated_spec(self.offset))
    }

    /// The mask shows some of a logged primitive at its new place.
    pub open spec fn shows_there(self, kind: PrimitiveKind, k: int, mask: ContentMask<N>) -> bool {
        let bounds = self.log.item(kind, k).bounds().translated_spec(self.offset);
        !bounds.intersect_spec(self.mask_there(mask).bounds).is_empty_spec()
    }

    /// The order of a logged primitive or layer in the replayed block: as far
    /// above the base as it was above the lowest.
    pub open spec fn order_there(self, scene: SceneModel<N>, order: DrawOrder) -> int {
        self.base(scene) + (order - lowest(recorded_orders(self.operations, self.log)))
    }

    /// How many of the first `count` primitives of a run are shown at their new
    /// place.
    pub open spec fn shown_of_run(
        self,
        kind: PrimitiveKind,
        start: int,
        count: nat,
        mask: ContentMask<N>,
    ) -> nat
        decreases count,
    {
        if count == 0 {
            0
        } else {
            self.shown_of_run(kind, start, (count - 1) as nat, mask) + (if self.shows_there(
                kind,
                start + count - 1,
                mask,
            ) {
                1nat
            } else {
                0
            })
        }
    }

    /// How many primitives of a kind the first `count` operations show at their
    /// new place.
    pub open spec fn shown_of(self, count: nat, kind: PrimitiveKind) -> nat
        decreases count,
    {
        if count == 0 {
            0
        } else {
            self.shown_of((count - 1) as nat, kind) + (match self.operations[count - 1] {
                PaintOperation::Run { kind: run_kind, start, len, mask } if run_kind == kind => {
                    self.shown_of_run(kind, start as int, len as nat, mask)
                },
                _ => 0,
            })
        }
    }

    /// Where the `k`-th logged primitive is drawn that the `i`-th operation
    /// refers to: behind what was drawn, and behind what the range shows before
    /// it.
    pub open spec fn place_there(self, drawn: DrawModel<N>, i: int, k: int) -> int {
        let operation = self.operations[i];
        drawn.len(operation->kind) as int + self.shown_of(i as nat, operation->kind)
            + self.shown_of_run(
            operation->kind,
            operation->start as int,
            (k - operation->start) as nat,
            operation->mask,
        )
    }
}

proof fn lemma_painted_item<N: Scalar>(
    scene: SceneModel<N>,
    logged: PrimitiveModel<N>,
    offset: Point<N>,
    own: ContentMask<N>,
    mask: ContentMask<N>,
    order: DrawOrder,
)
    ensures
        ({
            let moved = logged.translated(offset).with_mask(own);
            let after = scene.painted(moved, Some(mask), Some(order)).drawn;
            let shows = !logged.bounds().translated_spec(offset).intersect_spec(
                mask.bounds,
            ).is_empty_spec();
            let kind = logged.kind();
            let place = scene.drawn.len(kind) as int;
            &&& !shows ==> after == scene.drawn
            &&& shows ==> {
                &&& forall|k: PrimitiveKind| #[trigger]
                    after.len(k) == scene.drawn.len(k) + (if k == kind {
                        1nat
                    } else {
                        0
                    })
                &&& forall|k: PrimitiveKind, i: int|
                    0 <= i < scene.drawn.len(k) ==> #[trigger] drawn_item(after, k, i)
                        == drawn_item(scene.drawn, k, i)
                &&& drawn_item(after, kind, place) == drawn_form(
                    logged.translated(offset),
                    mask,
                    order,
                    place,
                )
            }
        }),
{
    let moved = logged.translated(offset).with_mask(own);
    let after = scene.painted(moved, Some(mask), Some(order)).drawn;
    assert(moved.bounds() == logged.bounds().translated_spec(offset));
    if let PrimitiveModel::Path(path) = logged {
        let there = path.translated(offset);
        assert(there.with_mask(own).with_mask(mask) =~= there.with_mask(mask));
    }
}

proof fn lemma_run_draws_copies<N: Scalar>(
    replay: Replay<N>,
    scene: SceneModel<N>,
    base: DrawOrder,
    kind: PrimitiveKind,
    start: int,
    count: nat,
    mask: ContentMask<N>,
)
    ensures
        ({
            let after = replay.after_run(scene, base, kind, start, count, mask).drawn;
            let before = scene.drawn;
            &&& forall|k: PrimitiveKind| #[trigger]
                after.len(k) == before.len(k) + (if k == kind {
                    replay.shown_of_run(kind, start, count, mask)
                } else {
                    0
                })
            &&& forall|k: PrimitiveKind, i: int|
                0 <= i < before.len(k) ==> #[trigger] drawn_item(after, k, i) == drawn_item(
                    before,
                    k,
                    i,
                )
            &&& forall|n: int|
                #![trigger replay.log.item(kind, start + n)]
                0 <= n < count && replay.shows_there(kind, start + n, mask) ==> {
                    let place = before.len(kind) as int
                        + replay.shown_of_run(kind, start, n as nat, mask);
                    &&& place < after.len(kind)
                    &&& drawn_item(after, kind, place) == drawn_form(
                        replay.log.item(kind, start + n).translated(replay.offset),
                        replay.mask_there(mask),
                        (base + (replay.log.item(kind, start + n).order() - lowest(
                            recorded_orders(replay.operations, replay.log),
                        ))) as u32,
                        place,
                    )
                }
        }),
    decreases count,
{
    if count > 0 {
        let last = (count - 1) as nat;
        lemma_run_draws_copies(replay, scene, base, kind, start, last, mask);
        let previous = replay.after_run(scene, base, kind, start, last, mask);
        let primitive = replay.log.item(kind, start + last);
        let order = (base + (primitive.order() - lowest(
            recorded_orders(replay.operations, replay.log),
        ))) as u32;
        lemma_painted_item(
            previous,
            primitive,
            replay.offset,
            mask.translated_spec(replay.offset),
            replay.mask_there(mask),
            order,
        );
        let after = replay.after_run(scene, base, kind, start, count, mask).drawn;
        let before = scene.drawn;
        assert(primitive.kind() == kind);
        assert forall|k: PrimitiveKind, i: int| 0 <= i < before.len(k) implies #[trigger] drawn_item(
            after,
            k,
            i,
        ) == drawn_item(before, k, i) by {
            assert(i < previous.drawn.len(k));
            assert(drawn_item(previous.drawn, k, i) == drawn_item(before, k, i));
        }
        assert forall|n: int|
            #![trigger replay.log.item(kind, start + n)]
            0 <= n < count && replay.shows_there(kind, start + n, mask) implies {
            let place = before.len(kind) as int + replay.shown_of_run(kind, start, n as nat, mask);
            &&& place < after.len(kind)
            &&& drawn_item(after, kind, place) == drawn_form(
                replay.log.item(kind, start + n).translated(replay.offset),
                replay.mask_there(mask),
                (base + (replay.log.item(kind, start + n).order() - lowest(
                    recorded_orders(replay.operations, replay.log),
                ))) as u32,
                place,
            )
        } by {
            let place = before.len(kind) as int + replay.shown_of_run(kind, start, n as nat, mask);
            if n < last {
                assert(place < previous.drawn.len(kind));
                assert(drawn_item(after, kind, place) == drawn_item(previous.drawn, kind, place));
            } else {
                assert(place == previous.drawn.len(kind));
            }
        }
    }
}

/// The `i`-th operation draws its primitives again.
spec fn draws_copies<N: Scalar>(
    replay: Replay<N>,
    base: DrawOrder,
    before: DrawModel<N>,
    after: DrawModel<N>,
    i: int,
) -> bool {
    replay.operations[i] matches PaintOperation::Run { kind, start, len, mask } ==> forall|k: int|
        #![trigger replay.log.item(kind, k)]
        start <= k < start + len && replay.shows_there(kind, k, mask) ==> {
            let place = replay.place_there(before, i, k);
            &&& place < after.len(kind)
            &&& drawn_item(after, kind, place) == drawn_form(
                replay.log.item(kind, k).translated(replay.offset),
                replay.mask_there(mask),
                (base + (replay.log.item(kind, k).order() - lowest(
                    recorded_orders(replay.operations, replay.log),
                ))) as u32,
                place,
            )
        }
}

proof fn lemma_operations_draw_copies<N: Scalar>(
    replay: Replay<N>,
    scene: SceneModel<N>,
    base: DrawOrder,
    count: nat,
)
    requires
        count <= replay.operations.len(),
    ensures
        ({
            let after = replay.after_operations(scene, base, count).drawn;
            let before = scene.drawn;
            &&& forall|k: PrimitiveKind| #[trigger]
                after.len(k) == before.len(k) + replay.shown_of(count, k)
            &&& forall|k: PrimitiveKind, i: int|
                0 <= i < before.len(k) ==> #[trigger] drawn_item(after, k, i) == drawn_item(
                    before,
                    k,
                    i,
                )
            &&& forall|i: int|
                0 <= i < count ==> #[trigger] draws_copies(replay, base, before, after, i)
        }),
    decreases count,
{
    if count > 0 {
        let last = (count - 1) as nat;
        lemma_operations_draw_copies(replay, scene, base, last);
        let previous = replay.after_operations(scene, base, last);
        let operation = replay.operations[last as int];
        let after = replay.after_operations(scene, base, count).drawn;
        let before = scene.drawn;
        if let PaintOperation::Run { kind, start, len, mask } = operation {
            lemma_run_draws_copies(
                replay,
                previous.seal(),
                base,
                kind,
                start as int,
                len as nat,
                mask,
            );
        }
        assert forall|k: PrimitiveKind| #[trigger]
            after.len(k) == before.len(k) + replay.shown_of(count, k) by {
            assert(previous.drawn.len(k) == before.len(k) + replay.shown_of(last, k));
        }
        assert forall|k: PrimitiveKind, i: int| 0 <= i < previous.drawn.len(
            k,
        ) implies #[trigger] drawn_item(after, k, i) == drawn_item(previous.drawn, k, i) by {}
        assert forall|k: PrimitiveKind, i: int| 0 <= i < before.len(k) implies #[trigger] drawn_item(
            after,
            k,
            i,
        ) == drawn_item(before, k, i) by {
            assert(previous.drawn.len(k) == before.len(k) + replay.shown_of(last, k));
            assert(drawn_item(previous.drawn, k, i) == drawn_item(before, k, i));
        }
        assert forall|i: int| 0 <= i < count implies #[trigger] draws_copies(
            replay,
            base,
            before,
            after,
            i,
        ) by {
            if let PaintOperation::Run { kind, start, len, mask } = replay.operations[i] {
                assert(previous.drawn.len(kind) == before.len(kind) + replay.shown_of(last, kind));
                assert(after.len(kind) == before.len(kind) + replay.shown_of(count, kind));
                if i < last {
                    assert(draws_copies(replay, base, before, previous.drawn, i));
                } else {
                    assert forall|k: int|
                        #![trigger replay.log.item(kind, k)]
                        start <= k < start + len && replay.shows_there(kind, k, mask) implies {
                        let place = replay.place_there(before, i, k);
                        &&& place < after.len(kind)
                        &&& drawn_item(after, kind, place) == drawn_form(
                            replay.log.item(kind, k).translated(replay.offset),
                            replay.mask_there(mask),
                            (base + (replay.log.item(kind, k).order() - lowest(
                                recorded_orders(replay.operations, replay.log),
                            ))) as u32,
                            place,
                        )
                    } by {
                        assert(replay.log.item(kind, start + (k - start)) == replay.log.item(
                            kind,
                            k,
                        ));
                    }
                }
            }
        }
    }
}

/// What a replay draws: every logged primitive of the range that the moved mask
/// and the clip show at its new place is drawn again, moved by the offset, with
/// that mask, as far above the base of the block as it was above the lowest
/// order of the range, and in the sequence in which it was logged. Nothing else
/// is drawn, and what was drawn before stays.
pub proof fn lemma_a_replay_draws_moved_copies<N: Scalar>(
    replay: Replay<N>,
    scene: SceneModel<N>,
    i: int,
    k: int,
)
    requires
        replay.fits(scene),
        !replay.is_void(),
        0 <= i < replay.operations.len(),
        replay.operations[i] is Run,
        replay.operations[i]->start <= k < replay.operations[i]->start + replay.operations[i]->len,
    ensures
        ({
            let after = replay.applied(scene).drawn;
            let operation = replay.operations[i];
            let logged = replay.log.item(operation->kind, k);
            let place = replay.place_there(scene.drawn, i, k);
            &&& forall|kind: PrimitiveKind| #[trigger]
                after.len(kind) == scene.drawn.len(kind) + replay.shown_of(
                    replay.operations.len(),
                    kind,
                )
            &&& forall|kind: PrimitiveKind, j: int|
                0 <= j < scene.drawn.len(kind) ==> #[trigger] drawn_item(after, kind, j)
                    == drawn_item(scene.drawn, kind, j)
            &&& replay.shows_there(operation->kind, k, operation->mask) ==> {
                &&& scene.drawn.len(operation->kind) <= place < after.len(operation->kind)
                &&& drawn_item(after, operation->kind, place) == drawn_form(
                    logged.translated(replay.offset),
                    replay.mask_there(operation->mask),
                    replay.order_there(scene, logged.order()) as u32,
                    place,
                )
            }
        }),
{
    let announced = replay.announced(scene);
    lemma_operations_draw_copies(
        replay,
        announced,
        replay.base(scene),
        replay.operations.len(),
    );
    assert(announced.drawn == scene.drawn);
    assert(draws_copies(replay, replay.base(scene), scene.drawn, replay.applied(scene).drawn, i));
}

/// What a replay logs: behind the operations that were there, every operation of
/// the range again: a run of as many primitives with the moved mask, over copies
/// that are moved by the offset, carry the moved mask and take the order that is
/// as far above the base as theirs was above the lowest; a layer with moved
/// bounds at such an order; and the end of a layer.
pub proof fn lemma_a_replay_logs_moved_copies<N: Scalar>(
    replay: Replay<N>,
    scene: SceneModel<N>,
    i: int,
    k: int,
)
    requires
        runs_within(replay.operations, replay.log),
        replay.fits(scene),
        replay.masks_are_themselves(),
        !replay.is_void(),
        0 <= i < replay.operations.len(),
    ensures
        ({
            let after = replay.applied(scene).record;
            let before = scene.record;
            let becomes = after.operations[before.operations.len() + i];
            &&& after.operations.len() == before.operations.len() + replay.operations.len()
            &&& match (replay.operations[i], becomes) {
                (
                    PaintOperation::Run { kind, start, len, mask },
                    PaintOperation::Run { kind: new_kind, start: new_start, len: new_len, mask: m },
                ) => {
                    let at = before.log.len(kind) + run_total(replay.operations.take(i), kind);
                    &&& new_kind == kind
                    &&& new_len == len
                    &&& m == mask.translated_spec(replay.offset)
                    &&& new_start == at as u32
                    &&& start <= k < start + len ==> after.log.item(kind, at + (k - start))
                        == replay.log.item(kind, k).translated(replay.offset).with_mask(
                        mask.translated_spec(replay.offset),
                    ).with_order(
                        replay.order_there(scene, replay.log.item(kind, k).order()) as u32,
                    )
                },
                (
                    PaintOperation::StartLayer(bounds, order),
                    PaintOperation::StartLayer(new_bounds, new_order),
                ) => {
                    &&& new_bounds == bounds.translated_spec(replay.offset)
                    &&& new_order == replay.order_there(scene, order) as u32
                },
                (PaintOperation::EndLayer, PaintOperation::EndLayer) => true,
                _ => false,
            }
        }),
{
    lemma_replay_is_one_to_one(replay, scene);
    let after = replay.applied(scene).record;
    assert(after.operations[scene.record.operations.len() + i] == replay.moved_operation(
        replay.base(scene),
        replay.operations[i],
        replay.copies_start(scene, i),
    ));
    if replay.operations[i] is Run {
        let kind = replay.operations[i]->kind;
        assert(replay.log.item(replay.operations[i]->kind, k) == replay.log.item(kind, k));
    }
}

/// An operation was recorded with an order.
pub open spec fn recorded_with<N: Scalar>(
    operation: PaintOperation<N>,
    log: LogModel<N>,
    order: DrawOrder,
) -> bool {
    match operation {
        PaintOperation::Run { kind, start, len, .. } => exists|k: int|
            start <= k < start + len && (#[trigger] log.item(kind, k)).order() == order,
        PaintOperation::StartLayer(_, layer) => layer == order,
        PaintOperation::EndLayer => false,
    }
}

proof fn lemma_operation_orders<N: Scalar>(
    operation: PaintOperation<N>,
    log: LogModel<N>,
    order: DrawOrder,
)
    ensures
        operation_orders(operation, log).contains(order) <==> recorded_with(operation, log, order),
{
    let orders = operation_orders(operation, log);
    match operation {
        PaintOperation::Run { kind, start, len, .. } => {
            if orders.contains(order) {
                let n = choose|n: int| 0 <= n < orders.len() && orders[n] == order;
                assert(log.item(kind, start + n).order() == order);
            }
            if recorded_with(operation, log, order) {
                let k = choose|k: int|
                    start <= k < start + len && (#[trigger] log.item(kind, k)).order() == order;
                assert(orders[k - start] == order);
            }
        },
        PaintOperation::StartLayer(_, layer) => {
            if layer == order {
                assert(orders[0] == order);
            }
        },
        PaintOperation::EndLayer => {},
    }
}

/// The orders of a range are those of its primitives and layers, and no others.
pub proof fn lemma_orders_of_a_range<N: Scalar>(
    operations: Seq<PaintOperation<N>>,
    log: LogModel<N>,
    order: DrawOrder,
)
    ensures
        recorded_orders(operations, log).contains(order) <==> exists|i: int|
            0 <= i < operations.len() && recorded_with(#[trigger] operations[i], log, order),
    decreases operations.len(),
{
    let orders = recorded_orders(operations, log);
    if operations.len() > 0 {
        let shorter = operations.drop_last();
        let last = operations.last();
        let (before, own) = (recorded_orders(shorter, log), operation_orders(last, log));
        lemma_orders_of_a_range(shorter, log, order);
        lemma_operation_orders(last, log, order);
        assert(last == operations[operations.len() - 1]);
        if orders.contains(order) {
            let n = choose|n: int| 0 <= n < orders.len() && orders[n] == order;
            if n < before.len() {
                assert(before[n] == order);
                let i = choose|i: int|
                    0 <= i < shorter.len() && recorded_with(#[trigger] shorter[i], log, order);
                assert(operations[i] == shorter[i]);
            } else {
                assert(own[n - before.len()] == order);
            }
        }
        if exists|i: int|
            0 <= i < operations.len() && recorded_with(#[trigger] operations[i], log, order) {
            let i = choose|i: int|
                0 <= i < operations.len() && recorded_with(#[trigger] operations[i], log, order);
            if i < shorter.len() {
                assert(shorter[i] == operations[i]);
                let n = choose|n: int| 0 <= n < before.len() && before[n] == order;
                assert(orders[n] == order);
            } else {
                let n = choose|n: int| 0 <= n < own.len() && own[n] == order;
                assert(orders[before.len() + n] == order);
            }
        }
    }
}

/// The lowest and the highest of some orders are among them, and bound them.
pub proof fn lemma_lowest_and_highest(orders: Seq<DrawOrder>)
    ensures
        forall|i: int|
            0 <= i < orders.len() ==> lowest(orders) <= #[trigger] orders[i] <= highest(orders),
        orders.len() > 0 ==> orders.contains(lowest(orders)) && orders.contains(highest(orders)),
    decreases orders.len(),
{
    if orders.len() > 0 {
        let before = orders.drop_last();
        lemma_lowest_and_highest(before);
        assert(orders[orders.len() - 1] == orders.last());
        assert forall|i: int| 0 <= i < orders.len() implies lowest(orders)
            <= #[trigger] orders[i] <= highest(orders) by {
            if i < before.len() {
                assert(before[i] == orders[i]);
            }
        }
        if before.len() > 0 {
            let (a, b) = (
                choose|a: int| 0 <= a < before.len() && before[a] == lowest(before),
                choose|b: int| 0 <= b < before.len() && before[b] == highest(before),
            );
            assert(orders[a] == lowest(before));
            assert(orders[b] == highest(before));
        }
    }
}

/// A range is not replayed exactly if it holds no order but the highest there
/// is; then the scene stays as it is.
pub proof fn lemma_what_is_not_replayed<N: Scalar>(replay: Replay<N>, scene: SceneModel<N>)
    ensures
        replay.is_void() <==> forall|i: int|
            0 <= i < recorded_orders(replay.operations, replay.log).len() ==> (
            #[trigger] recorded_orders(replay.operations, replay.log)[i]) == u32::MAX,
        replay.is_void() ==> replay.applied(scene) == scene,
{
    let orders = recorded_orders(replay.operations, replay.log);
    lemma_lowest_and_highest(orders);
    if forall|i: int| 0 <= i < orders.len() ==> (#[trigger] orders[i]) == u32::MAX {
        if orders.len() > 0 {
            assert(orders[0] == u32::MAX);
            let a = choose|a: int| 0 <= a < orders.len() && orders[a] == lowest(orders);
            assert(orders[a] == u32::MAX);
        }
    }
}

/// The block of a replay starts above what it overlaps of what was placed
/// before, and no higher; where it shows nothing, above the last order. It is
/// placed as a whole, up to its highest order.
pub proof fn lemma_where_a_block_is_placed<N: Scalar>(replay: Replay<N>, scene: SceneModel<N>)
    requires
        replay.fits(scene),
        !replay.is_void(),
    ensures
        match replay.shown() {
            Some(shown) => {
                let orders = recorded_orders(replay.operations, replay.log);
                &&& is_above_all(scene.record.tree, shown, replay.base(scene))
                &&& replay.announced(scene).record.tree == scene.record.tree.push(
                    (shown, replay.order_there(scene, highest(orders)) as u32),
                )
            },
            None => {
                &&& replay.announced(scene) == scene
                &&& replay.base(scene) == scene.record.last_order + 1 || replay.base(scene)
                    == u32::MAX && scene.record.last_order == u32::MAX
            },
        },
        replay.announced(scene).drawn == scene.drawn,
        replay.announced(scene).record.log == scene.record.log,
        replay.announced(scene).record.operations == scene.record.operations,
        replay.announced(scene).record.layers == scene.record.layers,
        replay.announced(scene).record.schedule == scene.record.schedule,
{
    let orders = recorded_orders(replay.operations, replay.log);
    lemma_lowest_and_highest(orders);
    lemma_orders_go_up(scene.record.last_order, 0);
    if orders.len() > 0 {
        assert(lowest(orders) <= orders[0] <= highest(orders));
        lemma_orders_go_up(replay.base(scene), (highest(orders) - lowest(orders)) as u32);
    }
    if let Some(shown) = replay.shown() {
        lemma_placed_above_all(scene.record.tree, shown);
    }
}

/// What a logged primitive of a run shows at its new place.
pub open spec fn part_there<N: Scalar>(
    log: LogModel<N>,
    kind: PrimitiveKind,
    k: int,
    offset: Point<N>,
    window: Bounds<N>,
) -> Bounds<N> {
    log.item(kind, k).bounds().translated_spec(offset).intersect_spec(window)
}

proof fn lemma_parts_of_a_run<N: Scalar>(
    log: LogModel<N>,
    kind: PrimitiveKind,
    start: int,
    count: nat,
    offset: Point<N>,
    window: Bounds<N>,
    part: Bounds<N>,
)
    ensures
        run_parts(log, kind, start, count, offset, window).contains(part) <==> {
            &&& !part.is_empty_spec()
            &&& exists|k: int|
                start <= k < start + count && part == #[trigger] part_there(
                    log,
                    kind,
                    k,
                    offset,
                    window,
                )
        },
    decreases count,
{
    let parts = run_parts(log, kind, start, count, offset, window);
    if count > 0 {
        let last = start + count - 1;
        let before = run_parts(log, kind, start, (count - 1) as nat, offset, window);
        lemma_parts_of_a_run(log, kind, start, (count - 1) as nat, offset, window, part);
        let own = part_there(log, kind, last, offset, window);
        if parts.contains(part) {
            let n = choose|n: int| 0 <= n < parts.len() && parts[n] == part;
            if n < before.len() {
                assert(before[n] == part);
            } else {
                assert(part == own);
            }
        }
        if before.contains(part) {
            let n = choose|n: int| 0 <= n < before.len() && before[n] == part;
            assert(parts[n] == part);
        }
        if part == own && !part.is_empty_spec() {
            assert(parts[before.len() as int] == part);
        }
        if exists|k: int|
            start <= k < start + count && part == #[trigger] part_there(
                log,
                kind,
                k,
                offset,
                window,
            ) {
            let k = choose|k: int|
                start <= k < start + count && part == #[trigger] part_there(
                    log,
                    kind,
                    k,
                    offset,
                    window,
                );
            if k < last {
                assert(part == part_there(log, kind, k, offset, window));
            }
        }
    }
}

/// An operation shows a part of itself once it is moved.
pub open spec fn shows_part<N: Scalar>(
    operation: PaintOperation<N>,
    log: LogModel<N>,
    offset: Point<N>,
    clip: ContentMask<N>,
    part: Bounds<N>,
) -> bool {
    operation matches PaintOperation::Run { kind, start, len, mask } && !part.is_empty_spec()
        && exists|k: int|
        start <= k < start + len && part == #[trigger] part_there(
            log,
            kind,
            k,
            offset,
            mask.bounds.translated_spec(offset).intersect_spec(clip.bounds),
        )
}

/// What a range shows once it is moved are the parts of its primitives that the
/// moved mask and the clip show, and nothing else.
pub proof fn lemma_what_a_moved_range_shows<N: Scalar>(
    operations: Seq<PaintOperation<N>>,
    log: LogModel<N>,
    offset: Point<N>,
    clip: ContentMask<N>,
    part: Bounds<N>,
)
    ensures
        visible_parts(operations, log, offset, clip).contains(part) <==> exists|i: int|
            0 <= i < operations.len() && shows_part(
                #[trigger] operations[i],
                log,
                offset,
                clip,
                part,
            ),
    decreases operations.len(),
{
    let parts = visible_parts(operations, log, offset, clip);
    if operations.len() > 0 {
        let shorter = operations.drop_last();
        let last = operations.last();
        let before = visible_parts(shorter, log, offset, clip);
        let own = operation_parts(last, log, offset, clip);
        lemma_what_a_moved_range_shows(shorter, log, offset, clip, part);
        if let PaintOperation::Run { kind, start, len, mask } = last {
            lemma_parts_of_a_run(
                log,
                kind,
                start as int,
                len as nat,
                offset,
                mask.bounds.translated_spec(offset).intersect_spec(clip.bounds),
                part,
            );
        }
        assert(own.contains(part) <==> shows_part(last, log, offset, clip, part));
        assert(last == operations[operations.len() - 1]);
        if parts.contains(part) {
            let n = choose|n: int| 0 <= n < parts.len() && parts[n] == part;
            if n < before.len() {
                assert(before[n] == part);
                let i = choose|i: int|
                    0 <= i < shorter.len() && shows_part(
                        #[trigger] shorter[i],
                        log,
                        offset,
                        clip,
                        part,
                    );
                assert(operations[i] == shorter[i]);
            } else {
                assert(own[n - before.len()] == part);
            }
        }
        if exists|i: int|
            0 <= i < operations.len() && shows_part(
                #[trigger] operations[i],
                log,
                offset,
                clip,
                part,
            ) {
            let i = choose|i: int|
                0 <= i < operations.len() && shows_part(
                    #[trigger] operations[i],
                    log,
                    offset,
                    clip,
                    part,
                );
            if i < shorter.len() {
                assert(shorter[i] == operations[i]);
                let n = choose|n: int| 0 <= n < before.len() && before[n] == part;
                assert(parts[n] == part);
            } else {
                let n = choose|n: int| 0 <= n < own.len() && own[n] == part;
                assert(parts[before.len() + n] == part);
            }
        }
    }
}

/// The rectangle around some others exists exactly if there are any, and any
/// other rectangle around all of them holds it, wherever differences are exact.
pub proof fn lemma_around_them_all<N: Scalar>(
    parts: Seq<Bounds<N>>,
    around: Bounds<N>,
    point: Point<N>,
)
    requires
        ordered_numbers::<N>(),
        forall|i: int|
            0 <= i < parts.len() ==> around.contains_spec((#[trigger] parts[i]).origin)
                && around.contains_spec(parts[i].bottom_right_spec()),
    ensures
        union_all(parts) is None <==> parts.len() == 0,
        union_all(parts) matches Some(union) ==> {
            &&& around.contains_spec(union.origin)
            &&& around.contains_spec(union.bottom_right_spec())
            &&& union.contains_spec(point) && parts.len() > 1 ==> around.contains_spec(point)
        },
    decreases parts.len(),
{
    if parts.len() > 0 {
        let before = parts.drop_last();
        assert forall|i: int| 0 <= i < before.len() implies around.contains_spec(
            (#[trigger] before[i]).origin,
        ) && around.contains_spec(before[i].bottom_right_spec()) by {
            assert(before[i] == parts[i]);
        }
        lemma_around_them_all(before, around, point);
        assert(parts.last() == parts[parts.len() - 1]);
        if let Some(union) = union_all(before) {
            lemma_around_the_corners_of_a_union(union, parts.last(), around);
            if union.union_spec(parts.last()).contains_spec(point) {
                lemma_union_is_the_smallest(union, parts.last(), around, point);
            }
        }
    }
}

proof fn lemma_last_order_of_a_run<N: Scalar>(
    replay: Replay<N>,
    scene: SceneModel<N>,
    base: DrawOrder,
    kind: PrimitiveKind,
    start: int,
    count: nat,
    mask: ContentMask<N>,
)
    requires
        count > 0,
    ensures
        replay.after_run(scene, base, kind, start, count, mask).record.last_order == (base + (
        replay.log.item(kind, start + count - 1).order() - lowest(
            recorded_orders(replay.operations, replay.log),
        ))) as u32,
{
}

proof fn lemma_last_order_of_operations<N: Scalar>(
    replay: Replay<N>,
    scene: SceneModel<N>,
    base: DrawOrder,
    count: nat,
)
    requires
        runs_within(replay.operations, replay.log),
        count <= replay.operations.len(),
    ensures
        ({
            let orders = recorded_orders(replay.operations.take(count as int), replay.log);
            let last = replay.after_operations(scene, base, count).record.last_order;
            &&& orders.len() == 0 ==> last == scene.record.last_order
            &&& orders.len() > 0 ==> last == (base + (orders.last() - lowest(
                recorded_orders(replay.operations, replay.log),
            ))) as u32
        }),
    decreases count,
{
    if count > 0 {
        let ops = replay.operations;
        lemma_last_order_of_operations(replay, scene, base, (count - 1) as nat);
        assert(ops.take(count as int).drop_last() =~= ops.take(count - 1));
        let previous = replay.after_operations(scene, base, (count - 1) as nat);
        if let PaintOperation::Run { kind, start, len, mask } = ops[count - 1] {
            lemma_last_order_of_a_run(
                replay,
                previous.seal(),
                base,
                kind,
                start as int,
                len as nat,
                mask,
            );
        }
    }
}

/// The last order of a scene after a replay is that of what the range holds
/// last.
pub proof fn lemma_a_replay_ends_at_its_last_order<N: Scalar>(
    replay: Replay<N>,
    scene: SceneModel<N>,
)
    requires
        runs_within(replay.operations, replay.log),
        replay.fits(scene),
        !replay.is_void(),
    ensures
        replay.applied(scene).record.last_order == replay.order_there(
            scene,
            recorded_orders(replay.operations, replay.log).last(),
        ) as u32,
{
    lemma_last_order_of_operations(
        replay,
        replay.announced(scene),
        replay.base(scene),
        replay.operations.len(),
    );
    assert(replay.operations.take(replay.operations.len() as int) =~= replay.operations);
}

/// An effect among the first `count` primitives of a run moves with a cadence at
/// a time, and is shown at its new place.
pub open spec fn run_moves<N: Scalar>(
    replay: Replay<N>,
    kind: PrimitiveKind,
    start: int,
    count: nat,
    mask: ContentMask<N>,
    interval: Duration,
    now: Instant,
) -> bool {
    exists|k: int|
        #![trigger replay.log.item(kind, k)]
        start <= k < start + count && replay.shows_there(kind, k, mask) && item_moves(
            replay.log.item(kind, k),
            interval,
            now,
        )
}

/// A primitive is an effect that moves with a cadence at a time.
pub open spec fn item_moves<N>(
    item: PrimitiveModel<N>,
    interval: Duration,
    now: Instant,
) -> bool {
    item matches PrimitiveModel::Effect(effect) && effect.animation matches Some(animation)
        && animation.frame_interval == interval && (animation.ends_at matches Some(end)
        ==> now.nanos < end.nanos)
}

proof fn lemma_run_is_scheduled<N: Scalar>(
    replay: Replay<N>,
    scene: SceneModel<N>,
    base: DrawOrder,
    kind: PrimitiveKind,
    start: int,
    count: nat,
    mask: ContentMask<N>,
    interval: Duration,
    now: Instant,
)
    requires
        distinct_cadences(scene.record.schedule),
    ensures
        ({
            let after = replay.after_run(scene, base, kind, start, count, mask).record.schedule;
            &&& distinct_cadences(after)
            &&& bucket_moves(after, interval, now) <==> {
                ||| bucket_moves(scene.record.schedule, interval, now)
                ||| run_moves(replay, kind, start, count, mask, interval, now)
            }
        }),
    decreases count,
{
    if count > 0 {
        let last = (count - 1) as nat;
        let k = start + last;
        lemma_run_is_scheduled(replay, scene, base, kind, start, last, mask, interval, now);
        let previous = replay.after_run(scene, base, kind, start, last, mask);
        let item = replay.log.item(kind, k);
        let moved = replay.moved(item, mask);
        assert(moved.bounds() == item.bounds().translated_spec(replay.offset));
        if let PrimitiveModel::Effect(effect) = item {
            if let Some(animation) = effect.animation {
                lemma_with_animation_moves(previous.record.schedule, animation, interval, now);
            }
        }
        if run_moves(replay, kind, start, count, mask, interval, now) {
            let n = choose|n: int|
                #![trigger replay.log.item(kind, n)]
                start <= n < start + count && replay.shows_there(kind, n, mask) && item_moves(
                    replay.log.item(kind, n),
                    interval,
                    now,
                );
            if n < k {
                assert(run_moves(replay, kind, start, last, mask, interval, now));
            }
        }
    }
}

proof fn lemma_operations_are_scheduled<N: Scalar>(
    replay: Replay<N>,
    scene: SceneModel<N>,
    base: DrawOrder,
    count: nat,
    interval: Duration,
    now: Instant,
)
    requires
        distinct_cadences(scene.record.schedule),
        count <= replay.operations.len(),
    ensures
        ({
            let after = replay.after_operations(scene, base, count).record.schedule;
            &&& distinct_cadences(after)
            &&& bucket_moves(after, interval, now) <==> {
                ||| bucket_moves(scene.record.schedule, interval, now)
                ||| exists|i: int|
                    0 <= i < count && operation_moves(
                        replay,
                        #[trigger] replay.operations[i],
                        interval,
                        now,
                    )
            }
        }),
    decreases count,
{
    if count > 0 {
        let last = (count - 1) as nat;
        lemma_operations_are_scheduled(replay, scene, base, last, interval, now);
        let previous = replay.after_operations(scene, base, last);
        if let PaintOperation::Run { kind, start, len, mask } = replay.operations[last as int] {
            lemma_run_is_scheduled(
                replay,
                previous.seal(),
                base,
                kind,
                start as int,
                len as nat,
                mask,
                interval,
                now,
            );
        }
    }
}

/// An effect of an operation moves with a cadence at a time, and is shown at its
/// new place.
pub open spec fn operation_moves<N: Scalar>(
    replay: Replay<N>,
    operation: PaintOperation<N>,
    interval: Duration,
    now: Instant,
) -> bool {
    operation matches PaintOperation::Run { kind, start, len, mask } && run_moves(
        replay,
        kind,
        start as int,
        len as nat,
        mask,
        interval,
        now,
    )
}

/// The effects of a range that are shown at their new place keep their cadences
/// going, as long as their animations do, and no others do.
pub proof fn lemma_a_replay_schedules_what_it_shows<N: Scalar>(
    replay: Replay<N>,
    scene: SceneModel<N>,
    interval: Duration,
    now: Instant,
)
    requires
        distinct_cadences(scene.record.schedule),
        !replay.is_void(),
    ensures
        bucket_moves(replay.applied(scene).record.schedule, interval, now) <==> {
            ||| bucket_moves(scene.record.schedule, interval, now)
            ||| exists|i: int|
                0 <= i < replay.operations.len() && operation_moves(
                    replay,
                    #[trigger] replay.operations[i],
                    interval,
                    now,
                )
        },
{
    lemma_operations_are_scheduled(
        replay,
        replay.announced(scene),
        replay.base(scene),
        replay.operations.len(),
        interval,
        now,
    );
}

/// A range of a scene is what was logged from its start up to its end, over the
/// log of that scene.
pub proof fn lemma_what_a_range_is<N: Scalar>(
    scene: &Scene<N>,
    range: core::ops::Range<usize>,
    offset: Point<N>,
    clip: ContentMask<N>,
    i: int,
)
    requires
        range.start <= range.end <= scene@.record.operations.len(),
        0 <= i < range.end - range.start,
    ensures
        ({
            let replay = scene.range_replay(range, offset, clip);
            &&& replay.operations.len() == range.end - range.start
            &&& replay.operations[i] == scene@.record.operations[range.start + i]
            &&& replay.log == scene@.record.log
            &&& replay.offset == offset
            &&& replay.clip == clip
        }),
{
}

} // verus!
