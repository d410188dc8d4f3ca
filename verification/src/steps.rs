//! What holds of a scene whatever is done to it: range boundaries, nested
//! layers, and scenes that were cleared.

use crate::batch::all_starts;
use crate::bounds_tree::{next_order, top_order, DrawOrder};
use crate::geometry::{Bounds, ContentMask};
use crate::motion::{RetainedMotionDamage, RetainedMotionDamageFallback};
use crate::number::Scalar;
use crate::primitive::{PrimitiveKind, PrimitiveModel};
use crate::replay::{recorded_orders, Replay};
use crate::scene::{DrawModel, PaintOperation, RecordModel, SceneModel};
use vstd::prelude::*;

verus! {

/// One call that changes a scene, other than to clear it.
pub enum Step<N> {
    /// A primitive is painted, drawn with `effective` in place of its own mask,
    /// at the given order if there is one.
    Paint {
        primitive: PrimitiveModel<N>,
        effective: Option<ContentMask<N>>,
        order: Option<DrawOrder>,
    },
    /// A layer is opened.
    PushLayer(Bounds<N>),
    /// A layer is opened that is fully clipped.
    PushLayerHidden(Bounds<N>),
    /// The innermost layer is closed.
    PopLayer,
    /// The length of the replay log is taken.
    Len,
    /// A range is replayed.
    Replay(Replay<N>),
}

impl<N: Scalar> SceneModel<N> {
    /// The scene after one call.
    pub open spec fn after(self, step: Step<N>) -> Self {
        match step {
            Step::Paint { primitive, effective, order } => self.painted(
                primitive,
                effective,
                order,
            ),
            Step::PushLayer(bounds) => self.with_placed_layer(bounds),
            Step::PushLayerHidden(bounds) => self.with_hidden_layer(bounds),
            Step::PopLayer => self.without_layer(),
            Step::Len => self.seal(),
            Step::Replay(replay) => replay.applied(self),
        }
    }

    /// The scene after some calls.
    pub open spec fn after_all(self, steps: Seq<Step<N>>) -> Self
        decreases steps.len(),
    {
        if steps.len() == 0 {
            self
        } else {
            self.after_all(steps.drop_last()).after(steps.last())
        }
    }

    /// `boundary` is the start or the end of a range: no run reaches over it,
    /// nor will one.
    pub open spec fn is_boundary(self, boundary: int) -> bool {
        &&& 0 <= boundary <= self.record.operations.len()
        &&& boundary == self.record.operations.len() ==> self.record.sealed
    }

    /// `later` has the operations of this scene up to `boundary`, which still
    /// is a boundary there.
    pub open spec fn keeps_up_to(self, later: Self, boundary: int) -> bool {
        &&& later.is_boundary(boundary)
        &&& later.record.operations.take(boundary) == self.record.operations.take(boundary)
    }
}

proof fn lemma_painted_keeps<N: Scalar>(
    scene: SceneModel<N>,
    boundary: int,
    primitive: PrimitiveModel<N>,
    effective: Option<ContentMask<N>>,
    order: Option<DrawOrder>,
)
    requires
        scene.is_boundary(boundary),
    ensures
        scene.keeps_up_to(scene.painted(primitive, effective, order), boundary),
{
    assert(scene.painted(primitive, effective, order).record.operations.take(boundary)
        =~= scene.record.operations.take(boundary));
}

proof fn lemma_layer_keeps<N: Scalar>(
    scene: SceneModel<N>,
    boundary: int,
    bounds: Bounds<N>,
    order: DrawOrder,
)
    requires
        scene.is_boundary(boundary),
    ensures
        scene.keeps_up_to(scene.with_layer(bounds, order), boundary),
        scene.keeps_up_to(scene.without_layer(), boundary),
{
    let before = scene.record.operations.take(boundary);
    assert(scene.with_layer(bounds, order).record.operations.take(boundary) =~= before);
    assert(scene.without_layer().record.operations.take(boundary) =~= before);
}

proof fn lemma_run_keeps<N: Scalar>(
    replay: Replay<N>,
    scene: SceneModel<N>,
    boundary: int,
    base: DrawOrder,
    kind: PrimitiveKind,
    start: int,
    count: nat,
    mask: ContentMask<N>,
)
    requires
        scene.is_boundary(boundary),
    ensures
        scene.keeps_up_to(replay.after_run(scene, base, kind, start, count, mask), boundary),
    decreases count,
{
    if count > 0 {
        lemma_run_keeps(replay, scene, boundary, base, kind, start, (count - 1) as nat, mask);
        let previous = replay.after_run(scene, base, kind, start, (count - 1) as nat, mask);
        let primitive = replay.log.item(kind, start + count - 1);
        lemma_painted_keeps(
            previous,
            boundary,
            replay.moved(primitive, mask),
            Some(replay.clip.intersect_spec(mask.translated_spec(replay.offset))),
            Some(replay.place(base, primitive.order())),
        );
    }
}

proof fn lemma_replay_keeps<N: Scalar>(
    replay: Replay<N>,
    scene: SceneModel<N>,
    boundary: int,
    base: DrawOrder,
    count: nat,
)
    requires
        scene.is_boundary(boundary),
    ensures
        scene.keeps_up_to(replay.after_operations(scene, base, count), boundary),
    decreases count,
{
    if count > 0 {
        lemma_replay_keeps(replay, scene, boundary, base, (count - 1) as nat);
        let previous = replay.after_operations(scene, base, (count - 1) as nat);
        let sealed = previous.seal();
        match replay.operations[count - 1] {
            PaintOperation::Run { kind, start, len, mask } => {
                lemma_run_keeps(
                    replay,
                    sealed,
                    boundary,
                    base,
                    kind,
                    start as int,
                    len as nat,
                    mask,
                );
            },
            PaintOperation::StartLayer(bounds, order) => {
                lemma_layer_keeps(
                    sealed,
                    boundary,
                    bounds.translated_spec(replay.offset),
                    replay.place(base, order),
                );
            },
            PaintOperation::EndLayer => {
                lemma_layer_keeps(sealed, boundary, replay.clip.bounds, 0);
            },
        }
    }
}

proof fn lemma_step_keeps<N: Scalar>(scene: SceneModel<N>, boundary: int, step: Step<N>)
    requires
        scene.is_boundary(boundary),
    ensures
        scene.keeps_up_to(scene.after(step), boundary),
{
    match step {
        Step::Paint { primitive, effective, order } => {
            lemma_painted_keeps(scene, boundary, primitive, effective, order);
        },
        Step::PushLayer(bounds) => {
            let after = scene.after(step);
            assert(after.record.operations.take(boundary) =~= scene.record.operations.take(
                boundary,
            ));
        },
        Step::PushLayerHidden(bounds) => {
            let after = scene.after(step);
            assert(after.record.operations.take(boundary) =~= scene.record.operations.take(
                boundary,
            ));
        },
        Step::PopLayer => {
            let after = scene.after(step);
            assert(after.record.operations.take(boundary) =~= scene.record.operations.take(
                boundary,
            ));
        },
        Step::Len => {},
        Step::Replay(replay) => {
            if !replay.is_void() {
                lemma_replay_keeps(
                    replay,
                    replay.announced(scene),
                    boundary,
                    replay.base(scene),
                    replay.operations.len(),
                );
            }
        },
    }
}

proof fn lemma_steps_keep<N: Scalar>(scene: SceneModel<N>, boundary: int, steps: Seq<Step<N>>)
    requires
        scene.is_boundary(boundary),
    ensures
        scene.keeps_up_to(scene.after_all(steps), boundary),
    decreases steps.len(),
{
    if steps.len() > 0 {
        lemma_steps_keep(scene, boundary, steps.drop_last());
        lemma_step_keeps(scene.after_all(steps.drop_last()), boundary, steps.last());
    }
}

/// The length of the replay log is a range boundary for good: whatever is
/// painted, layered or replayed afterwards, the operations before it stay
/// exactly as they were, and the log never gets shorter. So a range between
/// two lengths begins and ends on operation boundaries.
pub proof fn lemma_range_boundaries_hold<N: Scalar>(scene: SceneModel<N>, steps: Seq<Step<N>>)
    ensures
        ({
            let length = scene.record.operations.len() as int;
            let after = scene.after(Step::Len).after_all(steps);
            &&& after.record.operations.len() >= length
            &&& after.record.operations.take(length) == scene.record.operations
            &&& after.is_boundary(length)
        }),
{
    let length = scene.record.operations.len() as int;
    lemma_steps_keep(scene.after(Step::Len), length, steps);
    assert(scene.record.operations.take(length) =~= scene.record.operations);
}

/// How many more layers some operations open than they close.
pub open spec fn operations_level<N>(operations: Seq<PaintOperation<N>>, count: nat) -> int
    decreases count,
{
    if count == 0 {
        0
    } else {
        operations_level(operations, (count - 1) as nat) + (match operations[count - 1] {
            PaintOperation::StartLayer(_, _) => 1int,
            PaintOperation::EndLayer => -1,
            PaintOperation::Run { .. } => 0,
        })
    }
}

/// How many more layers some calls open than they close.
pub open spec fn level<N: Scalar>(steps: Seq<Step<N>>) -> int
    decreases steps.len(),
{
    if steps.len() == 0 {
        0
    } else {
        level(steps.drop_last()) + (match steps.last() {
            Step::PushLayer(_) => 1int,
            Step::PushLayerHidden(_) => 1,
            Step::PopLayer => -1,
            Step::Replay(replay) => if replay.is_void() {
                0
            } else {
                operations_level(replay.operations, replay.operations.len())
            },
            _ => 0,
        })
    }
}

/// At no time do some calls close a layer that they have not opened.
pub open spec fn closes_only_its_own<N: Scalar>(steps: Seq<Step<N>>) -> bool
    decreases steps.len(),
{
    steps.len() == 0 || {
        let before = level(steps.drop_last());
        &&& closes_only_its_own(steps.drop_last())
        &&& match steps.last() {
            Step::PopLayer => before > 0,
            Step::Replay(replay) => replay.is_void() || forall|count: nat|
                count <= replay.operations.len() ==> before + #[trigger] operations_level(
                    replay.operations,
                    count,
                ) >= 0,
            _ => true,
        }
    }
}

/// The open layers of a scene are those of `floor`, and `above` more.
spec fn stands_on<N>(scene: SceneModel<N>, floor: Seq<DrawOrder>, above: int) -> bool {
    &&& above >= 0
    &&& scene.record.layers.len() == floor.len() + above
    &&& scene.record.layers.take(floor.len() as int) == floor
}

proof fn lemma_layer_stands<N: Scalar>(
    scene: SceneModel<N>,
    floor: Seq<DrawOrder>,
    above: int,
    bounds: Bounds<N>,
    order: DrawOrder,
)
    requires
        stands_on(scene, floor, above),
    ensures
        stands_on(scene.with_layer(bounds, order), floor, above + 1),
        stands_on(scene.with_placed_layer(bounds), floor, above + 1),
{
    let len = floor.len() as int;
    let layers = scene.record.layers;
    assert(layers.push(order).take(len) =~= layers.take(len));
    let placed = scene.with_placed_layer(bounds).record.layers;
    assert(placed.take(len) =~= layers.take(len));
}

proof fn lemma_pop_stands<N: Scalar>(scene: SceneModel<N>, floor: Seq<DrawOrder>, above: int)
    requires
        stands_on(scene, floor, above),
        above > 0,
    ensures
        stands_on(scene.without_layer(), floor, above - 1),
{
    let len = floor.len() as int;
    let layers = scene.record.layers;
    assert(layers.drop_last().take(len) =~= layers.take(len));
}

proof fn lemma_run_leaves_the_layers<N: Scalar>(
    replay: Replay<N>,
    scene: SceneModel<N>,
    base: DrawOrder,
    kind: PrimitiveKind,
    start: int,
    count: nat,
    mask: ContentMask<N>,
)
    ensures
        replay.after_run(scene, base, kind, start, count, mask).record.layers
            == scene.record.layers,
    decreases count,
{
    if count > 0 {
        lemma_run_leaves_the_layers(replay, scene, base, kind, start, (count - 1) as nat, mask);
    }
}

proof fn lemma_replay_stands<N: Scalar>(
    replay: Replay<N>,
    scene: SceneModel<N>,
    floor: Seq<DrawOrder>,
    above: int,
    base: DrawOrder,
    count: nat,
)
    requires
        stands_on(scene, floor, above),
        count <= replay.operations.len(),
        forall|n: nat|
            n <= replay.operations.len() ==> above + #[trigger] operations_level(
                replay.operations,
                n,
            ) >= 0,
    ensures
        stands_on(
            replay.after_operations(scene, base, count),
            floor,
            above + operations_level(replay.operations, count),
        ),
    decreases count,
{
    if count > 0 {
        let n = (count - 1) as nat;
        lemma_replay_stands(replay, scene, floor, above, base, n);
        let sealed = replay.after_operations(scene, base, n).seal();
        let here = above + operations_level(replay.operations, n);
        assert(above + operations_level(replay.operations, count) >= 0);
        match replay.operations[count - 1] {
            PaintOperation::Run { kind, start, len, mask } => {
                lemma_run_leaves_the_layers(
                    replay,
                    sealed,
                    base,
                    kind,
                    start as int,
                    len as nat,
                    mask,
                );
            },
            PaintOperation::StartLayer(bounds, order) => {
                lemma_layer_stands(
                    sealed,
                    floor,
                    here,
                    bounds.translated_spec(replay.offset),
                    replay.place(base, order),
                );
            },
            PaintOperation::EndLayer => {
                lemma_pop_stands(sealed, floor, here);
            },
        }
    }
}

proof fn lemma_steps_stand<N: Scalar>(
    scene: SceneModel<N>,
    floor: Seq<DrawOrder>,
    above: int,
    steps: Seq<Step<N>>,
)
    requires
        stands_on(scene, floor, above),
        closes_only_its_own(steps),
    ensures
        stands_on(scene.after_all(steps), floor, above + level(steps)),
        level(steps) >= 0,
    decreases steps.len(),
{
    if steps.len() > 0 {
        let before = steps.drop_last();
        lemma_steps_stand(scene, floor, above, before);
        let here = scene.after_all(before);
        let at = above + level(before);
        match steps.last() {
            Step::PushLayer(bounds) => {
                lemma_layer_stands(here, floor, at, bounds, 0);
            },
            Step::PushLayerHidden(bounds) => {
                lemma_layer_stands(
                    here,
                    floor,
                    at,
                    bounds,
                    next_order(here.record.last_order),
                );
            },
            Step::PopLayer => {
                lemma_pop_stands(here, floor, at);
            },
            Step::Replay(replay) => {
                if !replay.is_void() {
                    let count = replay.operations.len();
                    assert forall|n: nat| n <= count implies at + #[trigger] operations_level(
                        replay.operations,
                        n,
                    ) >= 0 by {
                        assert(level(before) + operations_level(replay.operations, n) >= 0);
                    }
                    assert(level(before) + operations_level(replay.operations, count) >= 0);
                    lemma_replay_stands(
                        replay,
                        replay.announced(here),
                        floor,
                        at,
                        replay.base(here),
                        count,
                    );
                }
            },
            _ => {},
        }
    }
}

/// Closing a layer brings the layer around it back: whatever is painted,
/// layered and replayed within the inner layer, as long as it closes the layers
/// that it opens and no others, the open layers are those from before. Where
/// there is a layer around it, a visible primitive that is painted afterwards
/// takes that layer's order again, as one that was painted before did, wherever
/// it lies and whatever it overlaps.
pub proof fn lemma_closing_a_layer_brings_the_outer_one_back<N: Scalar>(
    outer: SceneModel<N>,
    bounds: Bounds<N>,
    steps: Seq<Step<N>>,
    hidden: bool,
    before: Bounds<N>,
    visible: Bounds<N>,
)
    requires
        closes_only_its_own(steps),
        level(steps) == 0,
        !before.is_empty_spec(),
        !visible.is_empty_spec(),
    ensures
        ({
            let opened = outer.after(
                if hidden {
                    Step::PushLayerHidden(bounds)
                } else {
                    Step::PushLayer(bounds)
                },
            );
            let closed = opened.after_all(steps).after(Step::PopLayer);
            &&& closed.record.layers == outer.record.layers
            &&& outer.record.layers.len() > 0 ==> {
                &&& closed.order_for(visible, None) == outer.record.layers.last()
                &&& outer.order_for(before, None) == outer.record.layers.last()
            }
        }),
{
    let floor = outer.record.layers;
    assert(floor.take(floor.len() as int) =~= floor);
    let order = if hidden {
        next_order(outer.record.last_order)
    } else {
        0
    };
    lemma_layer_stands(outer, floor, 0, bounds, order);
    let opened = outer.after(
        if hidden {
            Step::PushLayerHidden(bounds)
        } else {
            Step::PushLayer(bounds)
        },
    );
    lemma_steps_stand(opened, floor, 1, steps);
    let inner = opened.after_all(steps);
    lemma_pop_stands(inner, floor, 1);
    let closed = inner.after(Step::PopLayer);
    assert(closed.record.layers.take(floor.len() as int) =~= closed.record.layers);
}

/// While a layer is open, what is painted visibly takes its order.
pub proof fn lemma_a_layer_gives_its_order<N: Scalar>(
    scene: SceneModel<N>,
    bounds: Bounds<N>,
    visible: Bounds<N>,
)
    requires
        !visible.is_empty_spec(),
    ensures
        scene.after(Step::PushLayer(bounds)).order_for(visible, None) == next_order(
            top_order(scene.record.tree, bounds),
        ),
        scene.after(Step::PushLayerHidden(bounds)).order_for(visible, None)
            == next_order(scene.record.last_order),
{
}

/// Two scenes differ at most in whether a run is sealed that cannot be joined
/// anyhow.
pub open spec fn alike<N: Scalar>(a: SceneModel<N>, b: SceneModel<N>) -> bool {
    &&& a.seal() == b.seal()
    &&& a.record.operations.len() > 0 && a.record.operations.last() is Run ==> a.record.sealed
        == b.record.sealed
}

proof fn lemma_replayed_alike<N: Scalar>(
    replay: Replay<N>,
    a: SceneModel<N>,
    b: SceneModel<N>,
    base: DrawOrder,
    count: nat,
)
    requires
        a.seal() == b.seal(),
        count > 0,
    ensures
        replay.after_operations(a, base, count) == replay.after_operations(b, base, count),
    decreases count,
{
    reveal_with_fuel(Replay::after_operations, 2);
    if count > 1 {
        lemma_replayed_alike(replay, a, b, base, (count - 1) as nat);
    }
}

proof fn lemma_step_alike<N: Scalar>(a: SceneModel<N>, b: SceneModel<N>, step: Step<N>)
    requires
        alike(a, b),
    ensures
        alike(a.after(step), b.after(step)),
{
    assert(a.record =~= (RecordModel { sealed: a.record.sealed, ..b.seal().record }));
    assert(b.record =~= (RecordModel { sealed: b.record.sealed, ..a.seal().record }));
    assert(a.drawn == b.drawn);
    match step {
        Step::Replay(replay) => {
            if !replay.is_void() {
                let count = replay.operations.len();
                if count == 0 {
                    assert(recorded_orders(replay.operations, replay.log).len() == 0);
                }
                let (x, y) = (replay.announced(a), replay.announced(b));
                assert(x.seal() =~= y.seal());
                lemma_replayed_alike(replay, x, y, replay.base(a), count);
            }
        },
        _ => {
            assert(a.after(step).seal() =~= b.after(step).seal());
        },
    }
}

proof fn lemma_steps_alike<N: Scalar>(a: SceneModel<N>, b: SceneModel<N>, steps: Seq<Step<N>>)
    requires
        alike(a, b),
    ensures
        alike(a.after_all(steps), b.after_all(steps)),
    decreases steps.len(),
{
    if steps.len() > 0 {
        lemma_steps_alike(a, b, steps.drop_last());
        lemma_step_alike(
            a.after_all(steps.drop_last()),
            b.after_all(steps.drop_last()),
            steps.last(),
        );
    }
}

/// A cleared scene behaves as a new one: it has no operations, draws nothing
/// and moves nothing, and whatever is painted, layered and replayed into it
/// comes out as in a new scene, operation by operation, list by list and order
/// by order.
pub proof fn lemma_cleared_is_as_new<N: Scalar>(sealed: bool, steps: Seq<Step<N>>)
    ensures
        ({
            let cleared = SceneModel {
                record: RecordModel { sealed, ..RecordModel::<N>::empty() },
                drawn: DrawModel::empty(),
            };
            let (after, new) = (cleared.after_all(steps), SceneModel::empty().after_all(steps));
            &&& cleared.record.operations.len() == 0
            &&& cleared.record.schedule.len() == 0
            &&& cleared.drawn.batches().len() == 0
            &&& cleared.drawn.motion_damage() == Err::<
                RetainedMotionDamage<N>,
                RetainedMotionDamageFallback,
            >(RetainedMotionDamageFallback::NoEffect)
            &&& after.drawn == new.drawn
            &&& after.record.operations == new.record.operations
            &&& after.record.log == new.record.log
            &&& after.record.tree == new.record.tree
            &&& after.record.layers == new.record.layers
            &&& after.record.last_order == new.record.last_order
            &&& after.record.schedule == new.record.schedule
        }),
{
    let cleared = SceneModel {
        record: RecordModel { sealed, ..RecordModel::<N>::empty() },
        drawn: DrawModel::<N>::empty(),
    };
    let new = SceneModel::<N>::empty();
    assert(cleared.seal() =~= new.seal());
    lemma_steps_alike(cleared, new, steps);
    let (x, y) = (cleared.after_all(steps), new.after_all(steps));
    assert(x.seal().record.operations == y.seal().record.operations);
    assert(x.seal().drawn == y.seal().drawn);
    assert(cleared.drawn.addressable());
    assert(cleared.drawn.next_batch(all_starts()) is None);
}

/// Whatever was painted into a scene, once it is cleared it behaves as a new
/// one: whatever comes next is drawn, logged, placed and scheduled as in a scene
/// that nothing was painted into.
pub proof fn lemma_a_scene_that_was_cleared_is_as_new<N: Scalar>(
    scene: SceneModel<N>,
    steps: Seq<Step<N>>,
)
    ensures
        ({
            let (after, new) = (
                scene.cleared().after_all(steps),
                SceneModel::<N>::empty().after_all(steps),
            );
            &&& scene.cleared().record.operations.len() == 0
            &&& scene.cleared().drawn.batches().len() == 0
            &&& scene.cleared().record.schedule.len() == 0
            &&& scene.cleared().drawn.motion_damage() is Err
            &&& after.drawn == new.drawn
            &&& after.record.operations == new.record.operations
            &&& after.record.log == new.record.log
            &&& after.record.tree == new.record.tree
            &&& after.record.layers == new.record.layers
            &&& after.record.last_order == new.record.last_order
            &&& after.record.schedule == new.record.schedule
        }),
{
    lemma_cleared_is_as_new::<N>(scene.record.sealed, steps);
}

} // verus!
