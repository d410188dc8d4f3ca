//! When a retained scene has to be presented again, and what that damages.

use crate::geometry::{lemma_union_covers, lemma_union_is_the_smallest, Bounds, Point};
use crate::number::{ordered_numbers, Scalar};
use crate::time::{Duration, Instant};
use vstd::prelude::*;

verus! {

/// How often an effect wants a new frame, and until when (`None`: for ever).
#[derive(Clone, Copy, Debug, PartialEq, Eq, Structural)]
pub struct EffectAnimation {
    pub frame_interval: Duration,
    pub ends_at: Option<Instant>,
}

impl EffectAnimation {
    /// The effect still moves at `now`.
    pub open spec fn active(self, now: Instant) -> bool {
        self.ends_at matches Some(end) ==> now.nanos < end.nanos
    }
}

/// The effects of one cadence: its frame interval and when the last one ends.
#[derive(Clone, Copy, Debug, PartialEq, Eq, Structural)]
pub struct MotionScheduleBucket {
    pub frame_interval: Duration,
    pub latest_end: Option<Instant>,
}

impl MotionScheduleBucket {
    /// Some effect of this cadence still moves at `now`.
    pub open spec fn active(self, now: Instant) -> bool {
        self.latest_end matches Some(end) ==> now.nanos < end.nanos
    }
}

/// The later of two ends; an effect without end outlasts every other.
pub open spec fn later_end(a: Option<Instant>, b: Option<Instant>) -> Option<Instant> {
    match (a, b) {
        (Some(x), Some(y)) => if x.nanos <= y.nanos {
            Some(y)
        } else {
            Some(x)
        },
        _ => None,
    }
}

/// The position of the first bucket of a cadence, or the number of buckets.
pub open spec fn bucket_index(buckets: Seq<MotionScheduleBucket>, interval: Duration) -> int
    decreases buckets.len(),
{
    if buckets.len() == 0 {
        0
    } else if buckets.first().frame_interval == interval {
        0
    } else {
        1 + bucket_index(buckets.drop_first(), interval)
    }
}

/// The buckets after one more animation.
pub open spec fn with_animation(
    buckets: Seq<MotionScheduleBucket>,
    animation: EffectAnimation,
) -> Seq<MotionScheduleBucket> {
    let index = bucket_index(buckets, animation.frame_interval);
    if index < buckets.len() {
        buckets.update(
            index,
            MotionScheduleBucket {
                frame_interval: animation.frame_interval,
                latest_end: later_end(buckets[index].latest_end, animation.ends_at),
            },
        )
    } else {
        buckets.push(
            MotionScheduleBucket {
                frame_interval: animation.frame_interval,
                latest_end: animation.ends_at,
            },
        )
    }
}

/// No cadence has two buckets.
pub open spec fn distinct_cadences(buckets: Seq<MotionScheduleBucket>) -> bool {
    forall|i: int, j: int|
        0 <= i < j < buckets.len() ==> buckets[i].frame_interval != buckets[j].frame_interval
}

proof fn lemma_bucket_index(buckets: Seq<MotionScheduleBucket>, interval: Duration)
    ensures
        0 <= bucket_index(buckets, interval) <= buckets.len(),
        forall|i: int|
            0 <= i < bucket_index(buckets, interval) ==> buckets[i].frame_interval != interval,
        bucket_index(buckets, interval) < buckets.len() ==> buckets[bucket_index(
            buckets,
            interval,
        )].frame_interval == interval,
    decreases buckets.len(),
{
    if buckets.len() > 0 && buckets.first().frame_interval != interval {
        let rest = buckets.drop_first();
        lemma_bucket_index(rest, interval);
        assert forall|i: int| 0 <= i < bucket_index(buckets, interval) implies
            buckets[i].frame_interval != interval by {
            if i > 0 {
                assert(buckets[i] == rest[i - 1]);
            }
        }
    }
}

proof fn lemma_bucket_index_is(buckets: Seq<MotionScheduleBucket>, interval: Duration, at: int)
    requires
        0 <= at <= buckets.len(),
        forall|i: int| 0 <= i < at ==> buckets[i].frame_interval != interval,
        at < buckets.len() ==> buckets[at].frame_interval == interval,
    ensures
        bucket_index(buckets, interval) == at,
{
    lemma_bucket_index(buckets, interval);
    let found = bucket_index(buckets, interval);
    if found < at {
        assert(buckets[found].frame_interval == interval);
    }
}

/// The frame rate that the moving effects of a scene need, kept per cadence.
#[derive(Debug)]
pub struct MotionSchedule {
    buckets: Vec<MotionScheduleBucket>,
}

impl View for MotionSchedule {
    type V = Seq<MotionScheduleBucket>;

    closed spec fn view(&self) -> Seq<MotionScheduleBucket> {
        self.buckets@
    }
}

impl Clone for MotionSchedule {
    fn clone(&self) -> (r: Self)
        ensures
            r@ == self@,
    {
        let mut buckets: Vec<MotionScheduleBucket> = Vec::new();
        let mut i: usize = 0;
        while i < self.buckets.len()
            invariant
                i <= self.buckets@.len(),
                buckets@ =~= self.buckets@.take(i as int),
            decreases self.buckets@.len() - i,
        {
            buckets.push(self.buckets[i]);
            i = i + 1;
        }
        MotionSchedule { buckets }
    }
}

impl Default for MotionSchedule {
    fn default() -> (r: Self)
        ensures
            r@ == Seq::<MotionScheduleBucket>::empty(),
    {
        MotionSchedule { buckets: Vec::new() }
    }
}

impl MotionSchedule {
    /// Adds an effect. Effects of one cadence share a bucket, which ends with
    /// the last of them.
    pub fn register(&mut self, animation: EffectAnimation)
        ensures
            final(self)@ == with_animation(old(self)@, animation),
            distinct_cadences(old(self)@) ==> distinct_cadences(final(self)@),
    {
        proof {
            lemma_bucket_index(self@, animation.frame_interval);
        }
        let mut i: usize = 0;
        while i < self.buckets.len()
            invariant
                i <= self.buckets@.len(),
                *self == *old(self),
                forall|k: int|
                    0 <= k < i ==> self.buckets@[k].frame_interval != animation.frame_interval,
            decreases self.buckets@.len() - i,
        {
            let bucket = self.buckets[i];
            if bucket.frame_interval == animation.frame_interval {
                proof {
                    lemma_bucket_index_is(self@, animation.frame_interval, i as int);
                }
                let latest_end = match (bucket.latest_end, animation.ends_at) {
                    (Some(current), Some(incoming)) => if current.nanos <= incoming.nanos {
                        Some(incoming)
                    } else {
                        Some(current)
                    },
                    _ => None,
                };
                self.buckets[i] = MotionScheduleBucket {
                    frame_interval: animation.frame_interval,
                    latest_end,
                };
                return ;
            }
            i = i + 1;
        }
        proof {
            lemma_bucket_index_is(self@, animation.frame_interval, i as int);
        }
        self.buckets.push(
            MotionScheduleBucket {
                frame_interval: animation.frame_interval,
                latest_end: animation.ends_at,
            },
        );
    }

    /// The shortest frame interval among the cadences that still move at
    /// `now`, `None` where nothing moves any more.
    pub fn active_frame_interval(&self, now: Instant) -> (r: Option<Duration>)
        ensures
            r is None <==> forall|i: int| 0 <= i < self@.len() ==> !self@[i].active(now),
            r matches Some(interval) ==> {
                &&& exists|i: int|
                    0 <= i < self@.len() && self@[i].active(now) && self@[i].frame_interval
                        == interval
                &&& forall|i: int|
                    0 <= i < self@.len() && self@[i].active(now) ==> interval.nanos
                        <= self@[i].frame_interval.nanos
            },
    {
        let mut fastest: Option<Duration> = None;
        let mut i: usize = 0;
        while i < self.buckets.len()
            invariant
                i <= self.buckets@.len(),
                fastest is None <==> forall|k: int|
                    0 <= k < i ==> !self.buckets@[k].active(now),
                fastest matches Some(interval) ==> {
                    &&& exists|k: int|
                        0 <= k < i && self.buckets@[k].active(now)
                            && self.buckets@[k].frame_interval == interval
                    &&& forall|k: int|
                        0 <= k < i && self.buckets@[k].active(now) ==> interval.nanos
                            <= self.buckets@[k].frame_interval.nanos
                },
            decreases self.buckets@.len() - i,
        {
            let bucket = self.buckets[i];
            let moving = match bucket.latest_end {
                Some(end) => now.nanos < end.nanos,
                None => true,
            };
            assert(moving == self.buckets@[i as int].active(now));
            if moving {
                let faster = match fastest {
                    Some(interval) => bucket.frame_interval.nanos < interval.nanos,
                    None => true,
                };
                if faster {
                    fastest = Some(bucket.frame_interval);
                }
            }
            i = i + 1;
        }
        fastest
    }
}

/// The buckets that result from registering `animations` in turn.
pub open spec fn schedule_of(animations: Seq<EffectAnimation>) -> Seq<MotionScheduleBucket>
    decreases animations.len(),
{
    if animations.len() == 0 {
        Seq::empty()
    } else {
        with_animation(schedule_of(animations.drop_last()), animations.last())
    }
}

/// Some bucket of the cadence `interval` is active at `now`.
pub open spec fn bucket_moves(
    buckets: Seq<MotionScheduleBucket>,
    interval: Duration,
    now: Instant,
) -> bool {
    exists|i: int|
        0 <= i < buckets.len() && #[trigger] buckets[i].active(now) && buckets[i].frame_interval
            == interval
}

/// Some animation of the cadence `interval` is active at `now`.
pub open spec fn animation_moves(
    animations: Seq<EffectAnimation>,
    interval: Duration,
    now: Instant,
) -> bool {
    exists|i: int|
        0 <= i < animations.len() && #[trigger] animations[i].active(now)
            && animations[i].frame_interval == interval
}

/// One more animation keeps its cadence going as long as it moves, and leaves
/// the other cadences as they are.
pub proof fn lemma_with_animation_moves(
    buckets: Seq<MotionScheduleBucket>,
    animation: EffectAnimation,
    interval: Duration,
    now: Instant,
)
    requires
        distinct_cadences(buckets),
    ensures
        distinct_cadences(with_animation(buckets, animation)),
        bucket_moves(with_animation(buckets, animation), interval, now) <==> {
            ||| bucket_moves(buckets, interval, now)
            ||| animation.active(now) && animation.frame_interval == interval
        },
{
    lemma_bucket_index(buckets, animation.frame_interval);
    let at = bucket_index(buckets, animation.frame_interval);
    let after = with_animation(buckets, animation);
    if bucket_moves(after, interval, now) {
        let i = choose|i: int|
            0 <= i < after.len() && #[trigger] after[i].active(now) && after[i].frame_interval
                == interval;
        if i != at {
            assert(buckets[i].active(now));
        } else if at < buckets.len() && buckets[at].active(now) {
            assert(bucket_moves(buckets, interval, now));
        }
    }
    if bucket_moves(buckets, interval, now) {
        let i = choose|i: int|
            0 <= i < buckets.len() && #[trigger] buckets[i].active(now)
                && buckets[i].frame_interval == interval;
        assert(after[i].active(now));
    }
    if animation.active(now) && animation.frame_interval == interval {
        assert(after[at].active(now));
    }
}

/// Sharing buckets loses nothing: after any registrations, a cadence is active
/// exactly as long as one of the animations registered with it is.
pub proof fn lemma_schedule_keeps_every_animation(
    animations: Seq<EffectAnimation>,
    interval: Duration,
    now: Instant,
)
    ensures
        distinct_cadences(schedule_of(animations)),
        bucket_moves(schedule_of(animations), interval, now) <==> animation_moves(
            animations,
            interval,
            now,
        ),
    decreases animations.len(),
{
    if animations.len() > 0 {
        let before = animations.drop_last();
        let last = animations.last();
        lemma_schedule_keeps_every_animation(before, interval, now);
        lemma_with_animation_moves(schedule_of(before), last, interval, now);
        if animation_moves(animations, interval, now) {
            let i = choose|i: int|
                0 <= i < animations.len() && #[trigger] animations[i].active(now)
                    && animations[i].frame_interval == interval;
            if i < before.len() {
                assert(before[i].active(now));
            }
        }
        if animation_moves(before, interval, now) {
            let i = choose|i: int|
                0 <= i < before.len() && #[trigger] before[i].active(now)
                    && before[i].frame_interval == interval;
            assert(animations[i].active(now));
        }
        if last.active(now) && last.frame_interval == interval {
            assert(animations[animations.len() - 1].active(now));
        }
    }
}

/// Why a retained scene cannot use the bounded motion-damage experiment.
#[derive(Clone, Copy, Debug, PartialEq, Eq, Structural)]
pub enum RetainedMotionDamageFallback {
    /// The scene has no procedural motion effect.
    NoEffect,
    /// The experiment is deliberately bounded to one effect instance.
    MultipleEffects,
    /// Native or externally-produced surfaces require the ordinary renderer.
    ExternalSurface,
    /// A non-effect primitive is interleaved with or above the effect.
    InterleavedOrder,
    /// The effect is not the initially-supported spinner primitive.
    UnsupportedEffect,
}

/// Conservative pixel damage for an eligible retained-motion scene.
#[derive(Clone, Copy, Debug, PartialEq)]
pub struct RetainedMotionDamage<N> {
    /// Effect bounds clipped by the effect's content mask.
    pub bounds: Bounds<N>,
}

/// What each buffer of the flip chain holds (`None`: not the current scene),
/// and which of them is presented next.
#[verifier::ext_equal]
pub struct HistoryModel<N> {
    pub buffers: Seq<Option<Bounds<N>>>,
    pub next: int,
}

impl<N: Scalar> HistoryModel<N> {
    /// The next buffer is one of the flip chain, if there is any.
    pub open spec fn wf(self) -> bool {
        if self.buffers.len() == 0 {
            self.next == 0
        } else {
            0 <= self.next < self.buffers.len()
        }
    }

    /// A history without buffers.
    pub open spec fn invalid() -> Self {
        HistoryModel { buffers: Seq::empty(), next: 0 }
    }

    /// A flip chain of which only the first buffer holds the scene.
    pub open spec fn begun(bounds: Bounds<N>, buffer_count: nat) -> Self {
        if buffer_count == 0 {
            Self::invalid()
        } else {
            HistoryModel {
                buffers: Seq::new(
                    buffer_count,
                    |i: int| {
                        if i == 0 {
                            Some(bounds)
                        } else {
                            None
                        }
                    },
                ),
                next: 1int % (buffer_count as int),
            }
        }
    }

    /// The next buffer received `bounds`, and the chain moved on.
    pub open spec fn presented(self, bounds: Bounds<N>) -> Self {
        if self.buffers.len() == 0 {
            self
        } else {
            HistoryModel {
                buffers: self.buffers.update(self.next, Some(bounds)),
                next: (self.next + 1) % (self.buffers.len() as int),
            }
        }
    }

    /// The scene was drawn in full once more into a chain of `buffer_count`.
    pub open spec fn observed(self, bounds: Bounds<N>, buffer_count: nat) -> Self {
        if self.buffers.len() != buffer_count || buffer_count == 0 {
            Self::begun(bounds, buffer_count)
        } else {
            self.presented(bounds)
        }
    }

    /// Every one of `buffer_count` buffers holds the scene.
    pub open spec fn coherent(self, buffer_count: nat) -> bool {
        &&& buffer_count > 0
        &&& self.buffers.len() == buffer_count
        &&& forall|i: int| 0 <= i < self.buffers.len() ==> self.buffers[i] is Some
    }

    /// What is presented next has to redraw: what its buffer holds and what
    /// it is to show.
    pub open spec fn damage(self, current: Bounds<N>) -> Option<Bounds<N>> {
        if self.buffers.len() == 0 {
            None
        } else {
            match self.buffers[self.next] {
                Some(previous) => Some(previous.union_spec(current)),
                None => None,
            }
        }
    }
}

/// Tracks damage and flip-chain coherence for a retained scene.
///
/// A renderer must call [`Self::begin_scene`] after an ordinary scene draw,
/// [`Self::observe_retained_full`] after each fallback full replay, and may use
/// [`Self::next_damage`] only when [`Self::is_coherent`] is true.
#[derive(Debug)]
pub struct RetainedMotionDamageHistory<N> {
    buffer_bounds: Vec<Option<Bounds<N>>>,
    next_buffer: usize,
}

impl<N: Scalar> View for RetainedMotionDamageHistory<N> {
    type V = HistoryModel<N>;

    closed spec fn view(&self) -> HistoryModel<N> {
        HistoryModel { buffers: self.buffer_bounds@, next: self.next_buffer as int }
    }
}

impl<N: Scalar> Clone for RetainedMotionDamageHistory<N> {
    fn clone(&self) -> (r: Self)
        ensures
            r@ == self@,
    {
        let mut buffer_bounds: Vec<Option<Bounds<N>>> = Vec::new();
        let mut i: usize = 0;
        while i < self.buffer_bounds.len()
            invariant
                i <= self.buffer_bounds@.len(),
                buffer_bounds@ =~= self.buffer_bounds@.take(i as int),
            decreases self.buffer_bounds@.len() - i,
        {
            buffer_bounds.push(self.buffer_bounds[i]);
            i = i + 1;
        }
        RetainedMotionDamageHistory { buffer_bounds, next_buffer: self.next_buffer }
    }
}

impl<N: Scalar> Default for RetainedMotionDamageHistory<N> {
    fn default() -> (r: Self)
        ensures
            r@ == HistoryModel::<N>::invalid(),
            r@.wf(),
    {
        RetainedMotionDamageHistory { buffer_bounds: Vec::new(), next_buffer: 0 }
    }
}

impl<N: Scalar> RetainedMotionDamageHistory<N> {
    /// Starts history for a newly drawn scene. Only the current flip-chain
    /// buffer is known to contain that scene.
    pub fn begin_scene(&mut self, bounds: Bounds<N>, buffer_count: usize)
        ensures
            final(self)@ == HistoryModel::begun(bounds, buffer_count as nat),
            final(self)@.wf(),
    {
        let mut buffers: Vec<Option<Bounds<N>>> = Vec::new();
        let mut i: usize = 0;
        while i < buffer_count
            invariant
                i <= buffer_count,
                buffers@.len() == i,
                forall|k: int|
                    0 <= k < i ==> buffers@[k] == (if k == 0 {
                        Some(bounds)
                    } else {
                        None
                    }),
            decreases buffer_count - i,
        {
            buffers.push(
                if i == 0 {
                    Some(bounds)
                } else {
                    None
                },
            );
            i = i + 1;
        }
        self.buffer_bounds = buffers;
        self.next_buffer = if buffer_count == 0 {
            0
        } else {
            1 % buffer_count
        };
        assert(self@ =~= HistoryModel::begun(bounds, buffer_count as nat));
    }

    /// Records a full replay of the same retained scene into another buffer.
    pub fn observe_retained_full(&mut self, bounds: Bounds<N>, buffer_count: usize)
        requires
            old(self)@.wf(),
        ensures
            final(self)@ == old(self)@.observed(bounds, buffer_count as nat),
            final(self)@.wf(),
    {
        if self.buffer_bounds.len() != buffer_count || self.buffer_bounds.len() == 0 {
            self.begin_scene(bounds, buffer_count);
            return ;
        }
        let next: usize = self.next_buffer;
        self.buffer_bounds[next] = Some(bounds);
        self.next_buffer = (next + 1) % buffer_count;
    }

    /// Returns whether every flip-chain buffer has received a full scene.
    pub fn is_coherent(&self, buffer_count: usize) -> (r: bool)
        ensures
            r == self@.coherent(buffer_count as nat),
    {
        if buffer_count == 0 || self.buffer_bounds.len() != buffer_count {
            return false;
        }
        let mut i: usize = 0;
        while i < self.buffer_bounds.len()
            invariant
                i <= self.buffer_bounds@.len(),
                forall|k: int| 0 <= k < i ==> self.buffer_bounds@[k] is Some,
            decreases self.buffer_bounds@.len() - i,
        {
            if self.buffer_bounds[i].is_none() {
                assert(self@.buffers[i as int] is None);
                return false;
            }
            i = i + 1;
        }
        true
    }

    /// Returns the union of the bounds currently stored in the next
    /// swap-chain buffer and the current effect bounds. This is intentionally
    /// non-mutating: history advances only after a successful presentation.
    pub fn next_damage(&self, current: Bounds<N>) -> (r: Option<Bounds<N>>)
        requires
            self@.wf(),
        ensures
            r == self@.damage(current),
    {
        if self.buffer_bounds.len() == 0 {
            return None;
        }
        match self.buffer_bounds[self.next_buffer] {
            Some(previous) => Some(previous.union(&current)),
            None => None,
        }
    }

    /// Records a successfully presented damage frame in the current buffer.
    pub fn did_present_damage(&mut self, current: Bounds<N>)
        requires
            old(self)@.wf(),
        ensures
            final(self)@ == old(self)@.presented(current),
            final(self)@.wf(),
    {
        if self.buffer_bounds.len() == 0 {
            return ;
        }
        let next: usize = self.next_buffer;
        self.buffer_bounds[next] = Some(current);
        self.next_buffer = (next + 1) % self.buffer_bounds.len();
    }

    /// Invalidates all scene and swapchain history.
    pub fn invalidate(&mut self)
        ensures
            final(self)@ == HistoryModel::<N>::invalid(),
            final(self)@.wf(),
    {
        self.buffer_bounds = Vec::new();
        self.next_buffer = 0;
    }
}

/// The history after full replays of `frames` in turn.
pub open spec fn after_replays<N: Scalar>(
    history: HistoryModel<N>,
    frames: Seq<Bounds<N>>,
    buffer_count: nat,
) -> HistoryModel<N>
    decreases frames.len(),
{
    if frames.len() == 0 {
        history
    } else {
        after_replays(history, frames.drop_last(), buffer_count).observed(
            frames.last(),
            buffer_count,
        )
    }
}

/// The history after presenting `frames` in turn.
pub open spec fn after_presents<N: Scalar>(
    history: HistoryModel<N>,
    frames: Seq<Bounds<N>>,
) -> HistoryModel<N>
    decreases frames.len(),
{
    if frames.len() == 0 {
        history
    } else {
        after_presents(history, frames.drop_last()).presented(frames.last())
    }
}

proof fn lemma_warm_up<N: Scalar>(bounds: Bounds<N>, frames: Seq<Bounds<N>>, buffer_count: nat)
    requires
        buffer_count > 0,
    ensures
        ({
            let h = after_replays(
                HistoryModel::begun(bounds, buffer_count),
                frames,
                buffer_count,
            );
            &&& h.wf()
            &&& h.buffers.len() == buffer_count
            &&& frames.len() + 1 < buffer_count ==> h.next == frames.len() + 1
            &&& forall|i: int|
                0 <= i < buffer_count ==> (h.buffers[i] is Some <==> i <= frames.len())
        }),
    decreases frames.len(),
{
    let begun = HistoryModel::begun(bounds, buffer_count);
    if frames.len() == 0 {
        if buffer_count > 1 {
            vstd::arithmetic::div_mod::lemma_small_mod(1, buffer_count);
        }
    } else {
        lemma_warm_up(bounds, frames.drop_last(), buffer_count);
        let before = after_replays(begun, frames.drop_last(), buffer_count);
        let count = buffer_count as int;
        vstd::arithmetic::div_mod::lemma_mod_bound(before.next + 1, count);
        if frames.len() + 1 < buffer_count {
            vstd::arithmetic::div_mod::lemma_small_mod((before.next + 1) as nat, buffer_count);
        }
    }
}

/// A newly drawn scene may use damage once every other buffer has received a
/// full replay, and not before; after an invalidation that takes one more.
pub proof fn lemma_coherent_once_every_buffer_is_warm<N: Scalar>(
    bounds: Bounds<N>,
    frames: Seq<Bounds<N>>,
    buffer_count: nat,
)
    requires
        buffer_count > 0,
    ensures
        after_replays(HistoryModel::begun(bounds, buffer_count), frames, buffer_count).coherent(
            buffer_count,
        ) <==> frames.len() + 1 >= buffer_count,
        after_replays(HistoryModel::<N>::invalid(), frames, buffer_count).coherent(buffer_count)
            <==> frames.len() >= buffer_count,
{
    lemma_warm_up(bounds, frames, buffer_count);
    let h = after_replays(HistoryModel::begun(bounds, buffer_count), frames, buffer_count);
    if frames.len() + 1 < buffer_count {
        assert(h.buffers[(frames.len() + 1) as int] is None);
    }
    if frames.len() > 0 {
        let rest = frames.drop_first();
        lemma_warm_up(frames.first(), rest, buffer_count);
        lemma_replays_after_invalidation(frames, buffer_count);
        let cold = after_replays(
            HistoryModel::begun(frames.first(), buffer_count),
            rest,
            buffer_count,
        );
        if frames.len() < buffer_count {
            assert(cold.buffers[frames.len() as int] is None);
        }
    }
}

proof fn lemma_replays_after_invalidation<N: Scalar>(frames: Seq<Bounds<N>>, buffer_count: nat)
    requires
        buffer_count > 0,
        frames.len() > 0,
    ensures
        after_replays(HistoryModel::<N>::invalid(), frames, buffer_count) == after_replays(
            HistoryModel::begun(frames.first(), buffer_count),
            frames.drop_first(),
            buffer_count,
        ),
    decreases frames.len(),
{
    let rest = frames.drop_first();
    if frames.len() == 1 {
        assert(after_replays(HistoryModel::<N>::invalid(), frames.drop_last(), buffer_count)
            == HistoryModel::<N>::invalid());
    } else {
        lemma_replays_after_invalidation(frames.drop_last(), buffer_count);
        assert(frames.drop_last().drop_first() =~= rest.drop_last());
    }
}

proof fn lemma_presents<N: Scalar>(history: HistoryModel<N>, frames: Seq<Bounds<N>>)
    requires
        history.wf(),
        history.buffers.len() > 0,
    ensures
        ({
            let h = after_presents(history, frames);
            let count = history.buffers.len() as int;
            &&& h.buffers.len() == count
            &&& h.next == (history.next + frames.len()) % count
            &&& 0 <= h.next < count
            &&& forall|t: int|
                #![trigger frames[t]]
                frames.len() - count <= t < frames.len() && 0 <= t ==> h.buffers[(history.next + t)
                    % count] == Some(frames[t])
            &&& forall|t: int|
                frames.len() <= t < count ==> h.buffers[#[trigger] ((history.next + t) % count)]
                    == history.buffers[(history.next + t) % count]
        }),
    decreases frames.len(),
{
    let count = history.buffers.len() as int;
    if frames.len() == 0 {
        vstd::arithmetic::div_mod::lemma_small_mod(history.next as nat, count as nat);
    } else {
        let before = frames.drop_last();
        lemma_presents(history, before);
        let h0 = after_presents(history, before);
        let h = after_presents(history, frames);
        let at = (history.next + before.len()) % count;
        vstd::arithmetic::div_mod::lemma_mod_bound(history.next + before.len(), count);
        vstd::arithmetic::div_mod::lemma_add_mod_noop(history.next + before.len(), 1, count);
        vstd::arithmetic::div_mod::lemma_add_mod_noop(at, 1, count);
        vstd::arithmetic::div_mod::lemma_mod_twice(history.next + before.len(), count);
        vstd::arithmetic::div_mod::lemma_mod_bound(at + 1, count);
        assert(h.next == (history.next + frames.len()) % count);
        assert forall|t: int|
            #![trigger frames[t]]
            frames.len() - count <= t < frames.len() && 0 <= t implies h.buffers[(history.next + t)
            % count] == Some(frames[t]) by {
            vstd::arithmetic::div_mod::lemma_mod_bound(history.next + t, count);
            if t < before.len() {
                assert(before[t] == frames[t]);
                lemma_distinct_slots(history.next + t, history.next + before.len(), count);
            }
        }
        assert forall|t: int| frames.len() <= t < count implies h.buffers[#[trigger] ((
        history.next + t) % count)] == history.buffers[(history.next + t) % count] by {
            vstd::arithmetic::div_mod::lemma_mod_bound(history.next + t, count);
            lemma_distinct_slots(history.next + before.len(), history.next + t, count);
        }
    }
}

proof fn lemma_distinct_slots(a: int, b: int, count: int)
    requires
        0 < b - a < count,
    ensures
        a % count != b % count,
{
    if a % count == b % count {
        vstd::arithmetic::div_mod::lemma_fundamental_div_mod(a, count);
        vstd::arithmetic::div_mod::lemma_fundamental_div_mod(b, count);
        let d = b / count - a / count;
        assert(b - a == count * d) by (nonlinear_arith)
            requires
                a == count * (a / count) + a % count,
                b == count * (b / count) + b % count,
                a % count == b % count,
                d == b / count - a / count,
        ;
        assert(d <= 0 || d >= 1);
        assert(false) by (nonlinear_arith)
            requires
                0 < count * d < count,
                d <= 0 || d >= 1,
        ;
    }
}

/// Damage reaches back to what the same buffer last showed: a presented frame
/// is the one that has to be repaired when the flip chain has gone round once,
/// and until then each buffer still shows what it held before.
pub proof fn lemma_damage_reaches_back_one_round<N: Scalar>(
    history: HistoryModel<N>,
    frames: Seq<Bounds<N>>,
    current: Bounds<N>,
)
    requires
        history.wf(),
        history.buffers.len() > 0,
    ensures
        frames.len() >= history.buffers.len() ==> after_presents(history, frames).damage(current)
            == Some(frames[frames.len() - history.buffers.len()].union_spec(current)),
        frames.len() < history.buffers.len() ==> after_presents(history, frames).damage(current)
            == (match history.buffers[(history.next + frames.len())
            % (history.buffers.len() as int)] {
            Some(previous) => Some(previous.union_spec(current)),
            None => None,
        }),
{
    let count = history.buffers.len() as int;
    lemma_presents(history, frames);
    if frames.len() >= count {
        let t = frames.len() - count;
        assert(frames[t] == frames[t]);
        vstd::arithmetic::div_mod::lemma_mod_add_multiples_vanish(history.next + t, count);
    } else {
        let t = frames.len() as int;
        assert((history.next + t) % count == (history.next + frames.len()) % count);
    }
}

/// An animation moves until its end, and without an end for ever; a cadence
/// moves until its latest end; and of two ends the later one counts.
pub proof fn lemma_when_it_moves(
    animation: EffectAnimation,
    bucket: MotionScheduleBucket,
    other: Option<Instant>,
    now: Instant,
)
    ensures
        animation.ends_at is None ==> animation.active(now),
        animation.ends_at matches Some(end) ==> (animation.active(now) <==> now.nanos < end.nanos),
        bucket.latest_end is None ==> bucket.active(now),
        bucket.latest_end matches Some(end) ==> (bucket.active(now) <==> now.nanos < end.nanos),
        (MotionScheduleBucket {
            latest_end: later_end(bucket.latest_end, other),
            ..bucket
        }).active(now) <==> bucket.active(now) || (MotionScheduleBucket {
            latest_end: other,
            ..bucket
        }).active(now),
{
}

/// After a newly drawn scene, and after an invalidation: the first buffer holds
/// the scene and no other does, the one after it comes next, and without buffers
/// there is nothing to repair.
pub proof fn lemma_a_new_scene_is_in_one_buffer<N: Scalar>(
    bounds: Bounds<N>,
    buffer_count: nat,
    current: Bounds<N>,
    i: int,
)
    requires
        0 <= i,
    ensures
        ({
            let begun = HistoryModel::begun(bounds, buffer_count);
            &&& begun.buffers.len() == buffer_count
            &&& i < buffer_count ==> (begun.buffers[i] is Some <==> i == 0)
            &&& buffer_count > 0 ==> begun.buffers[0] == Some(bounds)
            &&& buffer_count > 1 ==> begun.next == 1 && begun.damage(current) is None
            &&& buffer_count == 1 ==> begun.next == 0 && begun.damage(current) == Some(
                bounds.union_spec(current),
            )
            &&& begun.coherent(buffer_count) <==> buffer_count == 1
        }),
        HistoryModel::<N>::invalid().buffers.len() == 0,
        HistoryModel::<N>::invalid().damage(current) is None,
        !HistoryModel::<N>::invalid().coherent(buffer_count),
{
    if buffer_count > 1 {
        vstd::arithmetic::div_mod::lemma_small_mod(1, buffer_count);
        let begun = HistoryModel::begun(bounds, buffer_count);
        assert(begun.buffers[1] is None);
    }
}

/// A presented frame is what its buffer holds, the other buffers hold what they
/// held, and the buffer after it comes next, the first after the last. A full
/// replay does the same in a chain of the same length, and starts a new history
/// in another one.
pub proof fn lemma_a_presented_frame_is_held<N: Scalar>(
    history: HistoryModel<N>,
    bounds: Bounds<N>,
    buffer_count: nat,
    i: int,
)
    requires
        history.wf(),
        history.buffers.len() > 0,
        0 <= i < history.buffers.len(),
    ensures
        ({
            let after = history.presented(bounds);
            &&& after.wf()
            &&& after.buffers.len() == history.buffers.len()
            &&& after.buffers[history.next] == Some(bounds)
            &&& i != history.next ==> after.buffers[i] == history.buffers[i]
            &&& after.next == (if history.next + 1 == history.buffers.len() {
                0
            } else {
                history.next + 1
            })
        }),
        buffer_count == history.buffers.len() ==> history.observed(bounds, buffer_count)
            == history.presented(bounds),
        buffer_count != history.buffers.len() ==> history.observed(bounds, buffer_count)
            == HistoryModel::begun(bounds, buffer_count),
{
    let count = history.buffers.len();
    if history.next + 1 < count {
        vstd::arithmetic::div_mod::lemma_small_mod((history.next + 1) as nat, count);
    } else {
        vstd::arithmetic::div_mod::lemma_mod_self_0(count as int);
    }
}

/// What has to be repaired holds every pixel that the buffer shows of the last
/// frame in it and every pixel of the current one, and no more than a rectangle
/// around both does, wherever differences are exact.
pub proof fn lemma_damage_covers_old_and_new<N: Scalar>(
    history: HistoryModel<N>,
    current: Bounds<N>,
    point: Point<N>,
    around: Bounds<N>,
)
    requires
        ordered_numbers::<N>(),
        history.wf(),
        history.buffers.len() > 0,
    ensures
        history.damage(current) is Some <==> history.buffers[history.next] is Some,
        history.damage(current) matches Some(damage) ==> {
            let previous = history.buffers[history.next]->0;
            &&& previous.contains_spec(point) || current.contains_spec(point)
                ==> damage.contains_spec(point)
            &&& {
                &&& around.contains_spec(previous.origin)
                &&& around.contains_spec(previous.bottom_right_spec())
                &&& around.contains_spec(current.origin)
                &&& around.contains_spec(current.bottom_right_spec())
                &&& damage.contains_spec(point)
            } ==> around.contains_spec(point)
        },
{
    if let Some(previous) = history.buffers[history.next] {
        lemma_union_covers(previous, current, point, current);
        if {
            &&& around.contains_spec(previous.origin)
            &&& around.contains_spec(previous.bottom_right_spec())
            &&& around.contains_spec(current.origin)
            &&& around.contains_spec(current.bottom_right_spec())
            &&& previous.union_spec(current).contains_spec(point)
        } {
            lemma_union_is_the_smallest(previous, current, around, point);
        }
    }
}

/// Damage is used only where every buffer of the chain holds the scene.
pub proof fn lemma_coherent_where_every_buffer_holds_it<N: Scalar>(
    history: HistoryModel<N>,
    buffer_count: nat,
)
    ensures
        history.coherent(buffer_count) <==> {
            &&& buffer_count > 0
            &&& buffer_count == history.buffers.len()
            &&& !exists|i: int| 0 <= i < buffer_count && #[trigger] history.buffers[i] is None
        },
{
}

} // verus!
