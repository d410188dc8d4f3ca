//! What it means to replay a part of a recorded scene.
//!
//! A replayed range keeps the relative draw orders that it was recorded with:
//! one query of the overlap orders, for the union of what it shows, gives the
//! first order of the block, and everything in it is offset from there.

use crate::bounds_tree::{
    block_end, lemma_later_is_above_block, next_order, top_order, DrawOrder,
};
use crate::geometry::{
    lemma_intersect_swaps, lemma_union_covers, Bounds, ContentMask, Point,
};
use crate::log::{lemma_log_push, LogModel};
use crate::number::{ordered_numbers, Scalar};
use crate::primitive::{PrimitiveKind, PrimitiveModel};
use crate::scene::{lemma_moved_keeps, PaintOperation, RecordModel, SceneModel};
use vstd::prelude::*;

verus! {

/// The orders that one operation was recorded with.
pub open spec fn operation_orders<N: Scalar>(
    operation: PaintOperation<N>,
    log: LogModel<N>,
) -> Seq<DrawOrder> {
    match operation {
        PaintOperation::Run { kind, start, len, .. } => Seq::new(
            len as nat,
            |i: int| log.item(kind, start + i).order(),
        ),
        PaintOperation::StartLayer(_, order) => seq![order],
        PaintOperation::EndLayer => Seq::empty(),
    }
}

/// The orders that a range was recorded with.
pub open spec fn recorded_orders<N: Scalar>(
    operations: Seq<PaintOperation<N>>,
    log: LogModel<N>,
) -> Seq<DrawOrder>
    decreases operations.len(),
{
    if operations.len() == 0 {
        Seq::empty()
    } else {
        recorded_orders(operations.drop_last(), log) + operation_orders(operations.last(), log)
    }
}

/// The lowest of some orders; the highest order there is for none.
pub open spec fn lowest(orders: Seq<DrawOrder>) -> DrawOrder
    decreases orders.len(),
{
    if orders.len() == 0 {
        u32::MAX
    } else if orders.last() < lowest(orders.drop_last()) {
        orders.last()
    } else {
        lowest(orders.drop_last())
    }
}

/// The highest of some orders; the lowest order there is for none.
pub open spec fn highest(orders: Seq<DrawOrder>) -> DrawOrder
    decreases orders.len(),
{
    if orders.len() == 0 {
        0
    } else if orders.last() > highest(orders.drop_last()) {
        orders.last()
    } else {
        highest(orders.drop_last())
    }
}

/// What the first `count` primitives of a run show of themselves in `window`
/// once they are moved by `offset`, without those that show nothing.
pub open spec fn run_parts<N: Scalar>(
    log: LogModel<N>,
    kind: PrimitiveKind,
    start: int,
    count: nat,
    offset: Point<N>,
    window: Bounds<N>,
) -> Seq<Bounds<N>>
    decreases count,
{
    if count == 0 {
        Seq::empty()
    } else {
        let before = run_parts(log, kind, start, (count - 1) as nat, offset, window);
        let part = log.item(kind, start + count - 1).bounds().translated_spec(
            offset,
        ).intersect_spec(window);
        if part.is_empty_spec() {
            before
        } else {
            before.push(part)
        }
    }
}

/// What one operation shows of itself once it is moved.
pub open spec fn operation_parts<N: Scalar>(
    operation: PaintOperation<N>,
    log: LogModel<N>,
    offset: Point<N>,
    clip: ContentMask<N>,
) -> Seq<Bounds<N>> {
    match operation {
        PaintOperation::Run { kind, start, len, mask } => run_parts(
            log,
            kind,
            start as int,
            len as nat,
            offset,
            mask.bounds.translated_spec(offset).intersect_spec(clip.bounds),
        ),
        _ => Seq::empty(),
    }
}

/// What a range shows of itself once it is moved.
pub open spec fn visible_parts<N: Scalar>(
    operations: Seq<PaintOperation<N>>,
    log: LogModel<N>,
    offset: Point<N>,
    clip: ContentMask<N>,
) -> Seq<Bounds<N>>
    decreases operations.len(),
{
    if operations.len() == 0 {
        Seq::empty()
    } else {
        visible_parts(operations.drop_last(), log, offset, clip) + operation_parts(
            operations.last(),
            log,
            offset,
            clip,
        )
    }
}

/// The union of some rectangles, `None` for none.
pub open spec fn union_all<N: Scalar>(parts: Seq<Bounds<N>>) -> Option<Bounds<N>>
    decreases parts.len(),
{
    if parts.len() == 0 {
        None
    } else {
        match union_all(parts.drop_last()) {
            Some(union) => Some(union.union_spec(parts.last())),
            None => Some(parts.last()),
        }
    }
}

/// How many primitives of a kind a range holds.
pub open spec fn run_total<N>(operations: Seq<PaintOperation<N>>, kind: PrimitiveKind) -> nat
    decreases operations.len(),
{
    if operations.len() == 0 {
        0
    } else {
        let before = run_total(operations.drop_last(), kind);
        match operations.last() {
            PaintOperation::Run { kind: run_kind, len, .. } if run_kind == kind => before + len
                as nat,
            _ => before,
        }
    }
}

/// The runs of a range lie within the log.
pub open spec fn runs_within<N: Scalar>(
    operations: Seq<PaintOperation<N>>,
    log: LogModel<N>,
) -> bool {
    forall|i: int|
        0 <= i < operations.len() ==> (#[trigger] operations[i] matches PaintOperation::Run {
            kind,
            start,
            len,
            ..
        } ==> len > 0 && start + len <= log.len(kind) && start + len <= u32::MAX)
}

/// A range to replay, and where.
pub struct Replay<N> {
    /// The operations of the range.
    pub operations: Seq<PaintOperation<N>>,
    /// The log that they refer to.
    pub log: LogModel<N>,
    /// By how much the range is moved.
    pub offset: Point<N>,
    /// The mask that the moved range is clipped by.
    pub clip: ContentMask<N>,
}

impl<N: Scalar> Replay<N> {
    /// The lowest order that the range was recorded with.
    pub open spec fn first(self) -> DrawOrder {
        lowest(recorded_orders(self.operations, self.log))
    }

    /// The highest order that the range was recorded with.
    pub open spec fn last(self) -> DrawOrder {
        highest(recorded_orders(self.operations, self.log))
    }

    /// The rectangle around everything that the moved range shows.
    pub open spec fn shown(self) -> Option<Bounds<N>> {
        union_all(visible_parts(self.operations, self.log, self.offset, self.clip))
    }

    /// The range holds no order below the highest there is: there is nothing
    /// to replay.
    pub open spec fn is_void(self) -> bool {
        self.first() == u32::MAX
    }

    /// The first order of the replayed block: above what it overlaps, or, where
    /// it shows nothing, above the last order.
    pub open spec fn base(self, scene: SceneModel<N>) -> DrawOrder {
        match self.shown() {
            Some(shown) => next_order(top_order(scene.record.tree, shown)),
            None => next_order(scene.record.last_order),
        }
    }

    /// The scene once the overlap orders know of the block.
    pub open spec fn announced(self, scene: SceneModel<N>) -> SceneModel<N> {
        match self.shown() {
            Some(shown) => SceneModel {
                record: RecordModel {
                    tree: scene.record.tree.push(
                        (
                            shown,
                            block_end(self.base(scene), (self.last() - self.first()) as u32),
                        ),
                    ),
                    ..scene.record
                },
                ..scene
            },
            None => scene,
        }
    }

    /// The order that replaces a recorded one.
    pub open spec fn place(self, base: DrawOrder, order: DrawOrder) -> DrawOrder {
        (base + (order - self.first())) as u32
    }

    /// A logged primitive as it is painted again.
    pub open spec fn moved(
        self,
        primitive: PrimitiveModel<N>,
        mask: ContentMask<N>,
    ) -> PrimitiveModel<N> {
        primitive.translated(self.offset).with_mask(mask.translated_spec(self.offset))
    }

    /// The scene after the first `count` primitives of a run were painted
    /// again, each with the moved mask of the run, drawn where `clip` shows it.
    pub open spec fn after_run(
        self,
        scene: SceneModel<N>,
        base: DrawOrder,
        kind: PrimitiveKind,
        start: int,
        count: nat,
        mask: ContentMask<N>,
    ) -> SceneModel<N>
        decreases count,
    {
        if count == 0 {
            scene
        } else {
            let primitive = self.log.item(kind, start + count - 1);
            self.after_run(scene, base, kind, start, (count - 1) as nat, mask).painted(
                self.moved(primitive, mask),
                Some(self.clip.intersect_spec(mask.translated_spec(self.offset))),
                Some(self.place(base, primitive.order())),
            )
        }
    }

    /// The scene after one operation was replayed. It starts a new operation,
    /// so that ranges within the replayed one keep their positions.
    pub open spec fn after_operation(
        self,
        scene: SceneModel<N>,
        base: DrawOrder,
        operation: PaintOperation<N>,
    ) -> SceneModel<N> {
        match operation {
            PaintOperation::Run { kind, start, len, mask } => self.after_run(
                scene.seal(),
                base,
                kind,
                start as int,
                len as nat,
                mask,
            ),
            PaintOperation::StartLayer(bounds, order) => scene.seal().with_layer(
                bounds.translated_spec(self.offset),
                self.place(base, order),
            ),
            PaintOperation::EndLayer => scene.seal().without_layer(),
        }
    }

    /// The scene after the first `count` operations were replayed.
    pub open spec fn after_operations(
        self,
        scene: SceneModel<N>,
        base: DrawOrder,
        count: nat,
    ) -> SceneModel<N>
        decreases count,
    {
        if count == 0 {
            scene
        } else {
            self.after_operation(
                self.after_operations(scene, base, (count - 1) as nat),
                base,
                self.operations[count - 1],
            )
        }
    }

    /// The scene after the range was replayed into it.
    pub open spec fn applied(self, scene: SceneModel<N>) -> SceneModel<N> {
        if self.is_void() {
            scene
        } else {
            self.after_operations(
                self.announced(scene),
                self.base(scene),
                self.operations.len(),
            )
        }
    }

    /// There are orders left for the block, and room for it in the log.
    pub open spec fn fits(self, scene: SceneModel<N>) -> bool {
        self.is_void() || {
            &&& self.base(scene) + (self.last() - self.first()) <= u32::MAX
            &&& forall|kind: PrimitiveKind| #[trigger]
                scene.record.log.len(kind) + run_total(self.operations, kind) <= u32::MAX
        }
    }
}

pub proof fn lemma_lowest_push(orders: Seq<DrawOrder>, order: DrawOrder)
    ensures
        lowest(orders.push(order)) == (if order < lowest(orders) {
            order
        } else {
            lowest(orders)
        }),
        highest(orders.push(order)) == (if order > highest(orders) {
            order
        } else {
            highest(orders)
        }),
{
    assert(orders.push(order).drop_last() =~= orders);
}

pub proof fn lemma_union_push<N: Scalar>(parts: Seq<Bounds<N>>, part: Bounds<N>)
    ensures
        union_all(parts.push(part)) == (match union_all(parts) {
            Some(union) => Some(union.union_spec(part)),
            None => Some(part),
        }),
{
    assert(parts.push(part).drop_last() =~= parts);
}

/// Every order of a range lies between the lowest and the highest.
pub proof fn lemma_order_bounds(orders: Seq<DrawOrder>, i: int)
    requires
        0 <= i < orders.len(),
    ensures
        lowest(orders) <= orders[i] <= highest(orders),
    decreases orders.len(),
{
    if i < orders.len() - 1 {
        lemma_order_bounds(orders.drop_last(), i);
    }
}

/// The orders of an operation are among those of its range.
pub proof fn lemma_operation_order_bounds<N: Scalar>(
    operations: Seq<PaintOperation<N>>,
    log: LogModel<N>,
    i: int,
    k: int,
)
    requires
        0 <= i < operations.len(),
        0 <= k < operation_orders(operations[i], log).len(),
    ensures
        lowest(recorded_orders(operations, log)) <= operation_orders(operations[i], log)[k]
            <= highest(recorded_orders(operations, log)),
    decreases operations.len(),
{
    let before = recorded_orders(operations.drop_last(), log);
    let own = operation_orders(operations.last(), log);
    if i == operations.len() - 1 {
        assert((before + own)[before.len() + k] == own[k]);
        lemma_order_bounds(before + own, before.len() + k);
    } else {
        lemma_operation_order_bounds(operations.drop_last(), log, i, k);
        lemma_append_widens(before, own);
    }
}

proof fn lemma_append_widens(orders: Seq<DrawOrder>, more: Seq<DrawOrder>)
    ensures
        lowest(orders + more) <= lowest(orders),
        highest(orders) <= highest(orders + more),
    decreases more.len(),
{
    if more.len() == 0 {
        assert(orders + more =~= orders);
    } else {
        lemma_append_widens(orders, more.drop_last());
        assert((orders + more).drop_last() =~= orders + more.drop_last());
    }
}

/// A part of a range holds no more primitives of a kind than the range.
pub proof fn lemma_run_total_grows<N>(
    operations: Seq<PaintOperation<N>>,
    count: int,
    kind: PrimitiveKind,
)
    requires
        0 <= count <= operations.len(),
    ensures
        run_total(operations.take(count), kind) <= run_total(operations, kind),
    decreases operations.len(),
{
    if count == operations.len() {
        assert(operations.take(count) =~= operations);
    } else {
        lemma_run_total_grows(operations.drop_last(), count, kind);
        assert(operations.drop_last().take(count) =~= operations.take(count));
    }
}

impl<N: Scalar> Replay<N> {
    /// What an operation of the range becomes: the same step, moved, at its
    /// new order, over the copies in the new log that start at `starts`.
    pub open spec fn moved_operation(
        self,
        base: DrawOrder,
        operation: PaintOperation<N>,
        starts: spec_fn(PrimitiveKind) -> nat,
    ) -> PaintOperation<N> {
        match operation {
            PaintOperation::Run { kind, start, len, mask } => PaintOperation::Run {
                kind,
                start: starts(kind) as u32,
                len,
                mask: mask.translated_spec(self.offset),
            },
            PaintOperation::StartLayer(bounds, order) => PaintOperation::StartLayer(
                bounds.translated_spec(self.offset),
                self.place(base, order),
            ),
            PaintOperation::EndLayer => PaintOperation::EndLayer,
        }
    }

    /// Every mask equals itself where it has to, which is where more than one
    /// primitive was painted with it. (It does not if a coordinate is no
    /// number.)
    pub open spec fn masks_are_themselves(self) -> bool {
        forall|i: int|
            0 <= i < self.operations.len() ==> (
            #[trigger] self.operations[i] matches PaintOperation::Run { len, mask, .. } ==> len > 1
                ==> mask.translated_spec(self.offset).same_spec(mask.translated_spec(self.offset)))
    }

    /// Where the copies of a kind start that the `i`-th operation refers to.
    pub open spec fn copies_start(
        self,
        scene: SceneModel<N>,
        i: int,
    ) -> spec_fn(PrimitiveKind) -> nat {
        |kind: PrimitiveKind| scene.record.log.len(kind) + run_total(self.operations.take(i), kind)
    }

    /// A logged primitive as it is logged again.
    pub open spec fn copied(
        self,
        base: DrawOrder,
        primitive: PrimitiveModel<N>,
        mask: ContentMask<N>,
    ) -> PrimitiveModel<N> {
        self.moved(primitive, mask).with_order(self.place(base, primitive.order()))
    }

    /// What holds of a scene after the first `count` operations.
    pub open spec fn in_step(
        self,
        before: SceneModel<N>,
        base: DrawOrder,
        after: SceneModel<N>,
        count: int,
    ) -> bool {
        &&& after.record.operations.len() == before.record.operations.len() + count
        &&& forall|i: int|
            0 <= i < before.record.operations.len() ==> #[trigger] after.record.operations[i]
                == before.record.operations[i]
        &&& forall|i: int|
            #![trigger self.operations[i]]
            0 <= i < count ==> after.record.operations[before.record.operations.len() + i]
                == self.moved_operation(base, self.operations[i], self.copies_start(before, i))
        &&& forall|kind: PrimitiveKind| #[trigger]
            after.record.log.len(kind) == before.record.log.len(kind) + run_total(
                self.operations.take(count),
                kind,
            )
        &&& forall|kind: PrimitiveKind, i: int|
            0 <= i < before.record.log.len(kind) ==> #[trigger] after.record.log.item(kind, i)
                == before.record.log.item(kind, i)
        &&& forall|i: int, k: int|
            #![trigger self.operations[i], self.log.item(self.operations[i]->kind, k)]
            0 <= i < count ==> (self.operations[i] matches PaintOperation::Run {
                kind,
                start,
                len,
                mask,
            } ==> (start <= k < start + len ==> after.record.log.item(
                kind,
                self.copies_start(before, i)(kind) + (k - start),
            ) == self.copied(base, self.log.item(kind, k), mask)))
    }
}

proof fn lemma_after_run<N: Scalar>(
    replay: Replay<N>,
    scene: SceneModel<N>,
    base: DrawOrder,
    kind: PrimitiveKind,
    start: int,
    count: nat,
    mask: ContentMask<N>,
)
    requires
        scene.record.sealed,
        count > 0,
        scene.record.log.len(kind) + count <= u32::MAX,
        count > 1 ==> mask.translated_spec(replay.offset).same_spec(
            mask.translated_spec(replay.offset),
        ),
    ensures
        ({
            let after = replay.after_run(scene, base, kind, start, count, mask);
            &&& after.record.operations == scene.record.operations.push(
                PaintOperation::Run {
                    kind,
                    start: scene.record.log.len(kind) as u32,
                    len: count as u32,
                    mask: mask.translated_spec(replay.offset),
                },
            )
            &&& !after.record.sealed
            &&& after.record.tree == scene.record.tree
            &&& after.record.layers == scene.record.layers
            &&& forall|k: PrimitiveKind| #[trigger]
                after.record.log.len(k) == scene.record.log.len(k) + (if k == kind {
                    count
                } else {
                    0
                })
            &&& forall|k: PrimitiveKind, i: int|
                0 <= i < scene.record.log.len(k) ==> #[trigger] after.record.log.item(k, i)
                    == scene.record.log.item(k, i)
            &&& forall|i: int|
                0 <= i < count ==> #[trigger] after.record.log.item(
                    kind,
                    scene.record.log.len(kind) + i,
                ) == replay.copied(base, replay.log.item(kind, start + i), mask)
        }),
    decreases count,
{
    let previous = replay.after_run(scene, base, kind, start, (count - 1) as nat, mask);
    if count > 1 {
        lemma_after_run(replay, scene, base, kind, start, (count - 1) as nat, mask);
    }
    let moved_mask = mask.translated_spec(replay.offset);
    let primitive = replay.log.item(kind, start + count - 1);
    let moved = replay.moved(primitive, mask);
    let effective = replay.clip.intersect_spec(moved_mask);
    let order = replay.place(base, primitive.order());
    let after = previous.painted(moved, Some(effective), Some(order));
    assert(moved.kind() == kind && moved.content_mask() == moved_mask);
    lemma_log_push(previous.record.log, moved.with_order(order));
    assert(after.record.log == previous.record.log.push(moved.with_order(order)));
    assert(moved.with_order(order).kind() == kind);
    assert(after.record.operations =~= scene.record.operations.push(
        PaintOperation::Run {
            kind,
            start: scene.record.log.len(kind) as u32,
            len: count as u32,
            mask: moved_mask,
        },
    ));
    assert forall|i: int| 0 <= i < count implies #[trigger] after.record.log.item(
        kind,
        scene.record.log.len(kind) + i,
    ) == replay.copied(base, replay.log.item(kind, start + i), mask) by {
        let at = scene.record.log.len(kind) + i;
        if i < count - 1 {
            assert(previous.record.log.item(kind, at) == replay.copied(
                base,
                replay.log.item(kind, start + i),
                mask,
            ));
        } else {
            assert(at == previous.record.log.len(kind));
        }
    }
}

/// How many primitives of a kind an operation holds.
spec fn operation_total<N>(operation: PaintOperation<N>, kind: PrimitiveKind) -> nat {
    match operation {
        PaintOperation::Run { kind: run_kind, len, .. } if run_kind == kind => len as nat,
        _ => 0,
    }
}

/// What one replayed operation does to a scene.
spec fn stepped<N: Scalar>(
    replay: Replay<N>,
    scene: SceneModel<N>,
    base: DrawOrder,
    operation: PaintOperation<N>,
    after: SceneModel<N>,
) -> bool {
    &&& after.record.operations == scene.record.operations.push(
        replay.moved_operation(
            base,
            operation,
            |kind: PrimitiveKind| scene.record.log.len(kind),
        ),
    )
    &&& after.record.tree == scene.record.tree
    &&& forall|k: PrimitiveKind| #[trigger]
        after.record.log.len(k) == scene.record.log.len(k) + operation_total(operation, k)
    &&& forall|k: PrimitiveKind, i: int|
        0 <= i < scene.record.log.len(k) ==> #[trigger] after.record.log.item(k, i)
            == scene.record.log.item(k, i)
    &&& operation matches PaintOperation::Run { kind, start, len, mask } ==> forall|i: int|
        0 <= i < len ==> #[trigger] after.record.log.item(
            kind,
            scene.record.log.len(kind) + i,
        ) == replay.copied(base, replay.log.item(kind, start + i), mask)
}

proof fn lemma_after_operation<N: Scalar>(
    replay: Replay<N>,
    scene: SceneModel<N>,
    base: DrawOrder,
    operation: PaintOperation<N>,
)
    requires
        operation matches PaintOperation::Run { kind, len, mask, .. } ==> {
            &&& len > 0
            &&& scene.record.log.len(kind) + len <= u32::MAX
            &&& len > 1 ==> mask.translated_spec(replay.offset).same_spec(
                mask.translated_spec(replay.offset),
            )
        },
    ensures
        stepped(replay, scene, base, operation, replay.after_operation(scene, base, operation)),
{
    match operation {
        PaintOperation::Run { kind, start, len, mask } => {
            lemma_after_run(replay, scene.seal(), base, kind, start as int, len as nat, mask);
        },
        _ => {},
    }
}

proof fn lemma_step_operations<N: Scalar>(
    replay: Replay<N>,
    before: SceneModel<N>,
    base: DrawOrder,
    previous: SceneModel<N>,
    after: SceneModel<N>,
    count: int,
)
    requires
        0 < count <= replay.operations.len(),
        replay.in_step(before, base, previous, count - 1),
        stepped(replay, previous, base, replay.operations[count - 1], after),
    ensures
        forall|i: int|
            #![trigger replay.operations[i]]
            0 <= i < count ==> after.record.operations[before.record.operations.len() + i]
                == replay.moved_operation(
                base,
                replay.operations[i],
                replay.copies_start(before, i),
            ),
{
    let len = before.record.operations.len();
    let operation = replay.operations[count - 1];
    let starts = |kind: PrimitiveKind| previous.record.log.len(kind);
    assert(starts =~= replay.copies_start(before, count - 1));
    assert forall|i: int|
        #![trigger replay.operations[i]]
        0 <= i < count implies after.record.operations[len + i] == replay.moved_operation(
        base,
        replay.operations[i],
        replay.copies_start(before, i),
    ) by {
        if i < count - 1 {
            assert(after.record.operations[len + i] == previous.record.operations[len + i]);
        } else {
            assert(after.record.operations[len + i] == replay.moved_operation(
                base,
                operation,
                starts,
            ));
        }
    }
}

proof fn lemma_step_log<N: Scalar>(
    replay: Replay<N>,
    before: SceneModel<N>,
    base: DrawOrder,
    previous: SceneModel<N>,
    after: SceneModel<N>,
    count: int,
    i: int,
    k: int,
)
    requires
        0 < count <= replay.operations.len(),
        replay.in_step(before, base, previous, count - 1),
        stepped(replay, previous, base, replay.operations[count - 1], after),
        0 <= i < count,
        replay.operations[i] is Run,
        replay.operations[i]->start <= k < replay.operations[i]->start + replay.operations[i]->len,
    ensures
        after.record.log.item(
            replay.operations[i]->kind,
            replay.copies_start(before, i)(replay.operations[i]->kind) + (k
                - replay.operations[i]->start),
        ) == replay.copied(
            base,
            replay.log.item(replay.operations[i]->kind, k),
            replay.operations[i]->mask,
        ),
{
    let ops = replay.operations;
    let kind = ops[i]->kind;
    let start = ops[i]->start as int;
    let at = replay.copies_start(before, i)(kind) + (k - start);
    assert(previous.record.log.len(kind) == before.record.log.len(kind) + run_total(
        ops.take(count - 1),
        kind,
    ));
    if i < count - 1 {
        assert(replay.log.item(ops[i]->kind, k) == replay.log.item(kind, k));
        lemma_run_total_step(ops, i, count - 1, kind);
        assert(after.record.log.item(kind, at) == previous.record.log.item(kind, at));
    } else {
        let n = k - start;
        assert(after.record.log.item(kind, previous.record.log.len(kind) + n) == replay.copied(
            base,
            replay.log.item(kind, start + n),
            ops[i]->mask,
        ));
    }
}

proof fn lemma_step<N: Scalar>(
    replay: Replay<N>,
    before: SceneModel<N>,
    base: DrawOrder,
    previous: SceneModel<N>,
    after: SceneModel<N>,
    count: int,
)
    requires
        0 < count <= replay.operations.len(),
        replay.in_step(before, base, previous, count - 1),
        stepped(replay, previous, base, replay.operations[count - 1], after),
    ensures
        replay.in_step(before, base, after, count),
{
    let ops = replay.operations;
    lemma_step_operations(replay, before, base, previous, after, count);
    assert(ops.take(count).drop_last() =~= ops.take(count - 1));
    assert(ops.take(count).last() == ops[count - 1]);
    assert forall|kind: PrimitiveKind| #[trigger]
        after.record.log.len(kind) == before.record.log.len(kind) + run_total(
            ops.take(count),
            kind,
        ) by {
        assert(previous.record.log.len(kind) == before.record.log.len(kind) + run_total(
            ops.take(count - 1),
            kind,
        ));
    }
    assert forall|kind: PrimitiveKind, i: int|
        0 <= i < before.record.log.len(kind) implies #[trigger] after.record.log.item(kind, i)
        == before.record.log.item(kind, i) by {
        assert(previous.record.log.len(kind) == before.record.log.len(kind) + run_total(
            ops.take(count - 1),
            kind,
        ));
        assert(previous.record.log.item(kind, i) == before.record.log.item(kind, i));
    }
    assert forall|i: int, k: int|
        #![trigger ops[i], replay.log.item(ops[i]->kind, k)]
        0 <= i < count implies (ops[i] matches PaintOperation::Run {
        kind,
        start,
        len,
        mask,
    } ==> (start <= k < start + len ==> after.record.log.item(
        kind,
        replay.copies_start(before, i)(kind) + (k - start),
    ) == replay.copied(base, replay.log.item(kind, k), mask))) by {
        if ops[i] is Run && ops[i]->start <= k < ops[i]->start + ops[i]->len {
            lemma_step_log(replay, before, base, previous, after, count, i, k);
        }
    }
}

proof fn lemma_in_step<N: Scalar>(
    replay: Replay<N>,
    before: SceneModel<N>,
    base: DrawOrder,
    count: nat,
)
    requires
        runs_within(replay.operations, replay.log),
        replay.masks_are_themselves(),
        count <= replay.operations.len(),
        forall|kind: PrimitiveKind| #[trigger]
            before.record.log.len(kind) + run_total(replay.operations, kind) <= u32::MAX,
    ensures
        replay.in_step(
            before,
            base,
            replay.after_operations(before, base, count),
            count as int,
        ),
    decreases count,
{
    let ops = replay.operations;
    if count == 0 {
        assert(ops.take(0) =~= Seq::empty());
    } else {
        let previous = replay.after_operations(before, base, (count - 1) as nat);
        let operation = ops[count - 1];
        lemma_in_step(replay, before, base, (count - 1) as nat);
        if operation is Run {
            let kind = operation->kind;
            lemma_run_total_step(ops, count - 1, count as int, kind);
            lemma_run_total_grows(ops, count as int, kind);
            assert(before.record.log.len(kind) + run_total(ops, kind) <= u32::MAX);
            assert(previous.record.log.len(kind) == before.record.log.len(kind) + run_total(
                ops.take(count - 1),
                kind,
            ));
        }
        lemma_after_operation(replay, previous, base, operation);
        let after = replay.after_operation(previous, base, operation);
        lemma_step(replay, before, base, previous, after, count as int);
    }
}

proof fn lemma_run_total_step<N>(
    operations: Seq<PaintOperation<N>>,
    i: int,
    count: int,
    kind: PrimitiveKind,
)
    requires
        0 <= i < count <= operations.len(),
    ensures
        operations[i] matches PaintOperation::Run { kind: run_kind, len, .. } ==> run_kind == kind
            ==> run_total(operations.take(i), kind) + len <= run_total(
            operations.take(count),
            kind,
        ),
{
    let longer = operations.take(count);
    lemma_run_total_grows(longer, i + 1, kind);
    assert(longer.take(i + 1) =~= operations.take(i + 1));
    assert(operations.take(i + 1).drop_last() =~= operations.take(i));
    assert(operations.take(i + 1).last() == operations[i]);
}

/// A replayed range becomes the same number of operations, each the moved
/// counterpart of the one at its place, behind the operations that were there
/// before: a range within the range is found again at the same distance.
/// Every logged primitive is logged again, moved, at its new order, and the
/// primitives that were logged before stay as they are.
///
/// A range without a painted primitive or layer, and one that consists of the
/// highest order alone, is not replayed.
pub proof fn lemma_replay_is_one_to_one<N: Scalar>(replay: Replay<N>, scene: SceneModel<N>)
    requires
        runs_within(replay.operations, replay.log),
        replay.fits(scene),
        replay.masks_are_themselves(),
    ensures
        replay.is_void() ==> replay.applied(scene) == scene,
        !replay.is_void() ==> replay.in_step(
            scene,
            replay.base(scene),
            replay.applied(scene),
            replay.operations.len() as int,
        ),
{
    if !replay.is_void() {
        let announced = replay.announced(scene);
        let base = replay.base(scene);
        let count = replay.operations.len();
        assert forall|kind: PrimitiveKind| #[trigger]
            announced.record.log.len(kind) + run_total(replay.operations, kind) <= u32::MAX by {
            assert(scene.record.log.len(kind) + run_total(replay.operations, kind) <= u32::MAX);
        }
        lemma_in_step(replay, announced, base, count);
        let after = replay.applied(scene);
        assert(after == replay.after_operations(announced, base, count));
        assert forall|i: int|
            #![trigger replay.operations[i]]
            0 <= i < count implies after.record.operations[scene.record.operations.len() + i]
            == replay.moved_operation(
            base,
            replay.operations[i],
            replay.copies_start(scene, i),
        ) by {
            assert(replay.copies_start(scene, i) =~= replay.copies_start(announced, i));
        }
        assert forall|i: int, k: int|
            #![trigger replay.operations[i], replay.log.item(replay.operations[i]->kind, k)]
            0 <= i < count implies (replay.operations[i] matches PaintOperation::Run {
            kind,
            start,
            len,
            mask,
        } ==> (start <= k < start + len ==> after.record.log.item(
            kind,
            replay.copies_start(scene, i)(kind) + (k - start),
        ) == replay.copied(base, replay.log.item(kind, k), mask))) by {
            assert(replay.copies_start(scene, i) =~= replay.copies_start(announced, i));
        }
    }
}

/// The orders of a range keep their distances when it is replayed, and all of
/// them lie in the block that starts at its first order.
pub proof fn lemma_replay_keeps_relative_orders<N: Scalar>(
    replay: Replay<N>,
    scene: SceneModel<N>,
    i: int,
    j: int,
)
    requires
        replay.fits(scene),
        !replay.is_void(),
        0 <= i < recorded_orders(replay.operations, replay.log).len(),
        0 <= j < recorded_orders(replay.operations, replay.log).len(),
    ensures
        ({
            let base = replay.base(scene);
            let orders = recorded_orders(replay.operations, replay.log);
            &&& replay.place(base, orders[i]) - replay.place(base, orders[j]) == orders[i]
                - orders[j]
            &&& base <= replay.place(base, orders[i])
            &&& replay.place(base, orders[i]) <= block_end(
                base,
                (replay.last() - replay.first()) as u32,
            )
        }),
{
    let orders = recorded_orders(replay.operations, replay.log);
    lemma_order_bounds(orders, i);
    lemma_order_bounds(orders, j);
}

proof fn lemma_run_leaves_the_tree<N: Scalar>(
    replay: Replay<N>,
    scene: SceneModel<N>,
    base: DrawOrder,
    kind: PrimitiveKind,
    start: int,
    count: nat,
    mask: ContentMask<N>,
)
    ensures
        replay.after_run(scene, base, kind, start, count, mask).record.tree == scene.record.tree,
    decreases count,
{
    if count > 0 {
        lemma_run_leaves_the_tree(replay, scene, base, kind, start, (count - 1) as nat, mask);
    }
}

/// Replayed operations place nothing of their own: their block was placed as a
/// whole.
pub proof fn lemma_operations_leave_the_tree<N: Scalar>(
    replay: Replay<N>,
    scene: SceneModel<N>,
    base: DrawOrder,
    count: nat,
)
    ensures
        replay.after_operations(scene, base, count).record.tree == scene.record.tree,
    decreases count,
{
    if count > 0 {
        lemma_operations_leave_the_tree(replay, scene, base, (count - 1) as nat);
        let previous = replay.after_operations(scene, base, (count - 1) as nat);
        if let PaintOperation::Run { kind, start, len, mask } = replay.operations[count - 1] {
            lemma_run_leaves_the_tree(
                replay,
                previous.seal(),
                base,
                kind,
                start as int,
                len as nat,
                mask,
            );
        }
    }
}

/// What is painted after a replayed block and overlaps what the block shows is
/// above every order of the block, whatever was painted between; only the
/// highest order there is has none above it.
pub proof fn lemma_later_is_above_the_replayed_block<N: Scalar>(
    replay: Replay<N>,
    scene: SceneModel<N>,
    between: Seq<(Bounds<N>, DrawOrder)>,
    later: Bounds<N>,
    i: int,
)
    requires
        replay.fits(scene),
        !replay.is_void(),
        replay.shown() matches Some(shown) && shown.intersects_spec(later),
        0 <= i < recorded_orders(replay.operations, replay.log).len(),
    ensures
        ({
            let base = replay.base(scene);
            let order = replay.place(base, recorded_orders(replay.operations, replay.log)[i]);
            let tree = replay.applied(scene).record.tree + between;
            order < next_order(top_order(tree, later)) || order == u32::MAX
        }),
{
    lemma_operations_leave_the_tree(
        replay,
        replay.announced(scene),
        replay.base(scene),
        replay.operations.len(),
    );
    lemma_order_bounds(recorded_orders(replay.operations, replay.log), i);
    lemma_later_is_above_block(
        scene.record.tree,
        replay.shown()->0,
        (replay.last() - replay.first()) as u32,
        between,
        later,
    );
}

/// What overlaps one of several rectangles overlaps their union, wherever
/// differences are exact.
pub proof fn lemma_union_of_all_covers<N: Scalar>(
    parts: Seq<Bounds<N>>,
    i: int,
    other: Bounds<N>,
)
    requires
        ordered_numbers::<N>(),
        0 <= i < parts.len(),
        parts[i].intersects_spec(other),
    ensures
        union_all(parts) matches Some(union) && union.intersects_spec(other),
    decreases parts.len(),
{
    let before = parts.drop_last();
    if i < before.len() {
        lemma_union_of_all_covers(before, i, other);
    }
    if let Some(union) = union_all(before) {
        lemma_union_covers(union, parts.last(), other.origin, other);
    }
}

/// What is painted after a replayed block and overlaps anything that the block
/// shows is above every order of the block, wherever differences are exact;
/// only the highest order there is has none above it.
pub proof fn lemma_later_is_above_whatever_was_replayed<N: Scalar>(
    replay: Replay<N>,
    scene: SceneModel<N>,
    between: Seq<(Bounds<N>, DrawOrder)>,
    later: Bounds<N>,
    part: int,
    i: int,
)
    requires
        ordered_numbers::<N>(),
        replay.fits(scene),
        !replay.is_void(),
        0 <= part < visible_parts(
            replay.operations,
            replay.log,
            replay.offset,
            replay.clip,
        ).len(),
        visible_parts(
            replay.operations,
            replay.log,
            replay.offset,
            replay.clip,
        )[part].intersects_spec(later),
        0 <= i < recorded_orders(replay.operations, replay.log).len(),
    ensures
        ({
            let base = replay.base(scene);
            let order = replay.place(base, recorded_orders(replay.operations, replay.log)[i]);
            let tree = replay.applied(scene).record.tree + between;
            order < next_order(top_order(tree, later)) || order == u32::MAX
        }),
{
    lemma_union_of_all_covers(
        visible_parts(replay.operations, replay.log, replay.offset, replay.clip),
        part,
        later,
    );
    lemma_later_is_above_the_replayed_block(replay, scene, between, later, i);
}

proof fn lemma_run_draws<N: Scalar>(
    replay: Replay<N>,
    scene: SceneModel<N>,
    base: DrawOrder,
    kind: PrimitiveKind,
    start: int,
    count: nat,
    mask: ContentMask<N>,
)
    requires
        ordered_numbers::<N>(),
    ensures
        replay.after_run(scene, base, kind, start, count, mask).drawn.total()
            == scene.drawn.total() + run_parts(
            replay.log,
            kind,
            start,
            count,
            replay.offset,
            mask.bounds.translated_spec(replay.offset).intersect_spec(replay.clip.bounds),
        ).len(),
    decreases count,
{
    if count > 0 {
        lemma_run_draws(replay, scene, base, kind, start, (count - 1) as nat, mask);
        let moved_mask = mask.translated_spec(replay.offset);
        lemma_intersect_swaps(moved_mask.bounds, replay.clip.bounds);
        let primitive = replay.log.item(kind, start + count - 1);
        lemma_moved_keeps(primitive, replay.offset, moved_mask);
    }
}

proof fn lemma_operations_draw<N: Scalar>(
    replay: Replay<N>,
    scene: SceneModel<N>,
    base: DrawOrder,
    count: nat,
)
    requires
        ordered_numbers::<N>(),
        count <= replay.operations.len(),
    ensures
        replay.after_operations(scene, base, count).drawn.total() == scene.drawn.total()
            + visible_parts(
            replay.operations.take(count as int),
            replay.log,
            replay.offset,
            replay.clip,
        ).len(),
    decreases count,
{
    if count > 0 {
        let ops = replay.operations;
        lemma_operations_draw(replay, scene, base, (count - 1) as nat);
        assert(ops.take(count as int).drop_last() =~= ops.take(count - 1));
        let previous = replay.after_operations(scene, base, (count - 1) as nat);
        if let PaintOperation::Run { kind, start, len, mask } = ops[count - 1] {
            lemma_run_draws(
                replay,
                previous.seal(),
                base,
                kind,
                start as int,
                len as nat,
                mask,
            );
        }
    }
}

/// A replay draws as many primitives as show something at the new place, those
/// among them that were hidden when they were recorded included, wherever
/// differences are exact.
pub proof fn lemma_replay_draws_what_shows<N: Scalar>(replay: Replay<N>, scene: SceneModel<N>)
    requires
        ordered_numbers::<N>(),
        !replay.is_void(),
    ensures
        replay.applied(scene).drawn.total() == scene.drawn.total() + visible_parts(
            replay.operations,
            replay.log,
            replay.offset,
            replay.clip,
        ).len(),
{
    lemma_operations_draw(
        replay,
        replay.announced(scene),
        replay.base(scene),
        replay.operations.len(),
    );
    assert(replay.operations.take(replay.operations.len() as int) =~= replay.operations);
}

} // verus!
