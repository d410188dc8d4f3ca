//! Timing records of drawn, presented and submitted frames.

use crate::motion::RetainedMotionDamageFallback;
use crate::ring::{capacity_for, entry_capacity, Cursor, RingModel, TimingRing};
use crate::time::{Duration, Instant};
use vstd::layout::size_of;
use vstd::prelude::*;

verus! {

/// A window.
#[derive(Clone, Copy, Debug, PartialEq, Eq, Hash, Structural)]
pub struct WindowId {
    pub id: u64,
}

/// Timing for a single drawn window frame.
#[derive(Clone, Copy, Debug)]
pub struct FrameTiming {
    /// The window that was drawn.
    pub window_id: WindowId,
    /// When the frame first became dirty (its first invalidation). `None` if
    /// frame tracing was not yet enabled when the invalidation occurred.
    pub dirty_at: Option<Instant>,
    /// Number of invalidations coalesced into this frame.
    pub invalidations: u64,
    /// When drawing started.
    pub draw_start: Instant,
    /// When drawing finished.
    pub draw_end: Instant,
}

/// Whether a presented frame rebuilt the retained scene first.
#[derive(Clone, Copy, Debug, PartialEq, Eq, Structural)]
pub enum PresentationKind {
    /// The window was drawn before presenting.
    Drawn,
    /// The window presented its previously drawn scene without rebuilding it.
    Retained,
}

/// CPU preparation timing for one window presentation.
#[derive(Clone, Copy, Debug)]
pub struct PresentationTiming {
    /// The window that was presented.
    pub window_id: WindowId,
    /// Whether this presentation rebuilt or reused the retained scene.
    pub kind: PresentationKind,
    /// Whether a retained motion deadline requested this presentation.
    pub motion_requested: bool,
    /// When frame preparation started on the window thread.
    pub preparation_start: Instant,
    /// When drawing/submission returned on the window thread.
    pub preparation_end: Instant,
}

/// Renderer work selected for one presentation.
#[derive(Clone, Copy, Debug, PartialEq, Eq, Structural)]
pub enum RendererFrameOrigin {
    /// A newly built scene took the ordinary full renderer path.
    Full,
    /// A retained scene took the ordinary full renderer path.
    RetainedFull,
    /// A retained scene used bounded motion damage.
    RetainedDamage,
}

/// Swapchain API used for a renderer submission.
#[derive(Clone, Copy, Debug, PartialEq, Eq, Structural)]
pub enum RendererPresentKind {
    /// Ordinary full `Present`.
    Present,
    /// `Present1` with a dirty rectangle.
    Present1,
}

/// Why a retained motion request used the safe full-render fallback.
#[derive(Clone, Copy, Debug, PartialEq, Eq, Structural)]
pub enum RendererFallbackReason {
    /// No fallback occurred.
    NoFallback,
    /// The experiment is disabled (the production default).
    ExperimentDisabled,
    /// This presentation was not requested solely by retained motion.
    NotMotionOnly,
    /// The window uses a background mode outside the bounded experiment.
    UnsupportedBackground,
    /// Scene structure is outside the bounded eligibility contract.
    Scene(RetainedMotionDamageFallback),
    /// Not every flip-chain buffer contains the current full scene yet.
    HistoryUncertain,
    /// The coherent underlap snapshot was unavailable.
    MissingUnderlap,
    /// Preparing the underlap snapshot failed; this frame still used the
    /// ordinary full presentation path.
    UnderlapCaptureFailed,
    /// The bounded damage path failed before presentation; the same frame was
    /// replayed through the ordinary full renderer.
    DamagePathFailed,
}

/// Primitive counts used by renderer upload and scene diagnostics.
#[derive(Clone, Copy, Debug, PartialEq, Eq, Structural)]
pub struct RendererPrimitiveCounts {
    pub shadows: u32,
    pub quads: u32,
    pub effects: u32,
    pub paths: u32,
    pub underlines: u32,
    pub monochrome_sprites: u32,
    pub subpixel_sprites: u32,
    pub polychrome_sprites: u32,
    pub surfaces: u32,
}

impl Default for RendererPrimitiveCounts {
    fn default() -> (r: Self)
        ensures
            r.sum() == 0,
    {
        RendererPrimitiveCounts {
            shadows: 0,
            quads: 0,
            effects: 0,
            paths: 0,
            underlines: 0,
            monochrome_sprites: 0,
            subpixel_sprites: 0,
            polychrome_sprites: 0,
            surfaces: 0,
        }
    }
}

impl RendererPrimitiveCounts {
    /// The sum of the counts.
    pub open spec fn sum(self) -> nat {
        self.shadows as nat + self.quads as nat + self.effects as nat + self.paths as nat
            + self.underlines as nat + self.monochrome_sprites as nat
            + self.subpixel_sprites as nat + self.polychrome_sprites as nat
            + self.surfaces as nat
    }

    pub open spec fn total_spec(self) -> nat {
        if self.sum() <= u32::MAX {
            self.sum()
        } else {
            u32::MAX as nat
        }
    }

    /// The total number of recorded primitive instances, or the highest number
    /// there is if they are more.
    pub fn total(self) -> (r: u32)
        ensures
            r == (if self.sum() <= u32::MAX {
                self.sum()
            } else {
                u32::MAX as nat
            }),
            r == self.total_spec(),
    {
        self.shadows.saturating_add(self.quads).saturating_add(self.effects).saturating_add(
            self.paths,
        ).saturating_add(self.underlines).saturating_add(self.monochrome_sprites).saturating_add(
            self.subpixel_sprites,
        ).saturating_add(self.polychrome_sprites).saturating_add(self.surfaces)
    }
}

/// Renderer-boundary diagnostics for one submitted frame.
#[derive(Clone, Copy, Debug)]
pub struct RendererFrameTiming {
    /// Static renderer identifier, for example `directx11`.
    pub backend: &'static str,
    pub origin: RendererFrameOrigin,
    pub scene: RendererPrimitiveCounts,
    pub uploads: RendererPrimitiveCounts,
    pub uploaded_bytes: u64,
    pub draw_calls: u32,
    pub effect_draw_calls: u32,
    /// `[left, top, right, bottom]` in physical pixels.
    pub damage_rect: Option<[i32; 4]>,
    pub damaged_pixels: u64,
    pub fallback: RendererFallbackReason,
    pub present: RendererPresentKind,
    pub preparation_start: Instant,
    pub preparation_end: Instant,
    /// Best-effort GPU duration. `None` when the backend cannot collect it
    /// without synchronously stalling the render thread.
    pub gpu_duration: Option<Duration>,
}

impl RendererFrameTiming {
    pub open spec fn preparation_duration_spec(self) -> Duration {
        self.preparation_end.duration_since_spec(self.preparation_start)
    }

    /// CPU time spent inside the renderer boundary.
    pub fn preparation_duration(&self) -> (r: Duration)
        ensures
            r == self.preparation_end.duration_since_spec(self.preparation_start),
            r == self.preparation_duration_spec(),
    {
        self.preparation_end.duration_since(self.preparation_start)
    }
}

impl PresentationTiming {
    pub open spec fn preparation_duration_spec(self) -> Duration {
        self.preparation_end.duration_since_spec(self.preparation_start)
    }

    /// CPU time spent preparing and submitting this presentation.
    pub fn preparation_duration(&self) -> (r: Duration)
        ensures
            r == self.preparation_end.duration_since_spec(self.preparation_start),
            r == self.preparation_duration_spec(),
    {
        self.preparation_end.duration_since(self.preparation_start)
    }
}

impl FrameTiming {
    pub open spec fn draw_duration_spec(self) -> Duration {
        self.draw_end.duration_since_spec(self.draw_start)
    }

    pub open spec fn dirty_to_draw_duration_spec(self) -> Option<Duration> {
        match self.dirty_at {
            Some(dirty_at) => Some(self.draw_end.duration_since_spec(dirty_at)),
            None => None,
        }
    }

    /// Time spent drawing.
    pub fn draw_duration(&self) -> (r: Duration)
        ensures
            r == self.draw_end.duration_since_spec(self.draw_start),
            r == self.draw_duration_spec(),
    {
        self.draw_end.duration_since(self.draw_start)
    }

    /// Time from the frame's first invalidation to the end of its draw, if the
    /// first invalidation was observed.
    pub fn dirty_to_draw_duration(&self) -> (r: Option<Duration>)
        ensures
            r == (match self.dirty_at {
                Some(dirty_at) => Some(self.draw_end.duration_since_spec(dirty_at)),
                None => None,
            }),
            r == self.dirty_to_draw_duration_spec(),
    {
        match self.dirty_at {
            Some(dirty_at) => Some(self.draw_end.duration_since(dirty_at)),
            None => None,
        }
    }
}

/// The frame timings of a process.
pub struct FrameTrace {
    pub enabled: bool,
    pub frames: TimingRing<FrameTiming>,
    pub presentations: TimingRing<PresentationTiming>,
    pub renderer_frames: TimingRing<RendererFrameTiming>,
}

impl FrameTrace {
    /// Nothing was recorded, and nothing is.
    pub fn new() -> (r: Self)
        ensures
            !r.enabled,
            r.frames@ == RingModel::<FrameTiming>::empty(),
            r.presentations@ == RingModel::<PresentationTiming>::empty(),
            r.renderer_frames@ == RingModel::<RendererFrameTiming>::empty(),
    {
        FrameTrace {
            enabled: false,
            frames: TimingRing::new(),
            presentations: TimingRing::new(),
            renderer_frames: TimingRing::new(),
        }
    }
}

/// Enables or disables frame timing collection.
///
/// When transitioning from enabled to disabled, the buffered frame timings are
/// cleared so stale data isn't reported after a later re-enable. Returns false
/// if the value was unchanged.
pub fn set_frame_trace_enabled(trace: &mut FrameTrace, enabled: bool) -> (r: bool)
    ensures
        r == (old(trace).enabled != enabled),
        final(trace).enabled == enabled,
        old(trace).enabled && !enabled ==> {
            &&& final(trace).frames@ == old(trace).frames@.cleared()
            &&& final(trace).presentations@ == old(trace).presentations@.cleared()
            &&& final(trace).renderer_frames@ == old(trace).renderer_frames@.cleared()
        },
        !(old(trace).enabled && !enabled) ==> {
            &&& final(trace).frames == old(trace).frames
            &&& final(trace).presentations == old(trace).presentations
            &&& final(trace).renderer_frames == old(trace).renderer_frames
        },
        final(trace).frames@ == old(trace).frames@.switched(old(trace).enabled, enabled),
        final(trace).presentations@ == old(trace).presentations@.switched(
            old(trace).enabled,
            enabled,
        ),
        final(trace).renderer_frames@ == old(trace).renderer_frames@.switched(
            old(trace).enabled,
            enabled,
        ),
{
    if trace.enabled == enabled {
        return false;
    }
    trace.enabled = enabled;
    if !enabled {
        trace.frames.clear();
        trace.presentations.clear();
        trace.renderer_frames.clear();
    }
    true
}

/// Whether frame timing collection is enabled.
pub fn frame_trace_enabled(trace: &FrameTrace) -> (r: bool)
    ensures
        r == trace.enabled,
{
    trace.enabled
}

/// Records the timing of a drawn window frame.
///
/// No-op unless frame tracing is enabled via [`set_frame_trace_enabled`].
pub fn record_frame_timing(trace: &mut FrameTrace, timing: FrameTiming)
    requires
        old(trace).enabled ==> old(trace).frames@.total < u64::MAX,
    ensures
        final(trace).enabled == old(trace).enabled,
        final(trace).presentations == old(trace).presentations,
        final(trace).renderer_frames == old(trace).renderer_frames,
        final(trace).frames@ == (if old(trace).enabled {
            old(trace).frames@.push(timing, capacity_for(size_of::<FrameTiming>()))
        } else {
            old(trace).frames@
        }),
        final(trace).frames@ == old(trace).frames@.push_if(
            old(trace).enabled,
            timing,
            capacity_for(size_of::<FrameTiming>()),
        ),
{
    if !frame_trace_enabled(trace) {
        return ;
    }
    trace.frames.push(timing, entry_capacity::<FrameTiming>());
}

/// Records the CPU preparation time of a presented window frame.
///
/// No-op unless frame tracing is enabled via [`set_frame_trace_enabled`].
pub fn record_presentation_timing(trace: &mut FrameTrace, timing: PresentationTiming)
    requires
        old(trace).enabled ==> old(trace).presentations@.total < u64::MAX,
    ensures
        final(trace).enabled == old(trace).enabled,
        final(trace).frames == old(trace).frames,
        final(trace).renderer_frames == old(trace).renderer_frames,
        final(trace).presentations@ == (if old(trace).enabled {
            old(trace).presentations@.push(timing, capacity_for(size_of::<PresentationTiming>()))
        } else {
            old(trace).presentations@
        }),
        final(trace).presentations@ == old(trace).presentations@.push_if(
            old(trace).enabled,
            timing,
            capacity_for(size_of::<PresentationTiming>()),
        ),
{
    if !frame_trace_enabled(trace) {
        return ;
    }
    trace.presentations.push(timing, entry_capacity::<PresentationTiming>());
}

/// Records renderer-boundary work for a submitted frame.
///
/// No-op unless frame tracing is enabled via [`set_frame_trace_enabled`].
pub fn record_renderer_frame_timing(trace: &mut FrameTrace, timing: RendererFrameTiming)
    requires
        old(trace).enabled ==> old(trace).renderer_frames@.total < u64::MAX,
    ensures
        final(trace).enabled == old(trace).enabled,
        final(trace).frames == old(trace).frames,
        final(trace).presentations == old(trace).presentations,
        final(trace).renderer_frames@ == (if old(trace).enabled {
            old(trace).renderer_frames@.push(timing, capacity_for(size_of::<RendererFrameTiming>()))
        } else {
            old(trace).renderer_frames@
        }),
        final(trace).renderer_frames@ == old(trace).renderer_frames@.push_if(
            old(trace).enabled,
            timing,
            capacity_for(size_of::<RendererFrameTiming>()),
        ),
{
    if !frame_trace_enabled(trace) {
        return ;
    }
    trace.renderer_frames.push(timing, entry_capacity::<RendererFrameTiming>());
}

/// Drains frame timings recorded after this collector was created, tracking a
/// cursor so each call to [`Self::collect_unseen`] returns only new entries.
pub struct FrameTimingCollector {
    cursor: Cursor,
}

impl FrameTimingCollector {
    /// How far this collector has come.
    pub closed spec fn seen(&self) -> Cursor {
        self.cursor
    }

    /// Creates a collector that only sees frames recorded from this point on.
    pub fn new(trace: &FrameTrace) -> (r: Self)
        ensures
            r.seen() == trace.frames@.cursor(),
    {
        FrameTimingCollector { cursor: trace.frames.cursor() }
    }

    /// Returns frame timings recorded since the previous call (or since the
    /// collector was created). If the ring buffer wrapped around since the
    /// previous poll, the evicted entries are lost.
    pub fn collect_unseen(&mut self, trace: &FrameTrace) -> (r: Vec<FrameTiming>)
        ensures
            r@ == trace.frames@.unseen(old(self).seen()),
            final(self).seen() == trace.frames@.cursor(),
    {
        let unseen = trace.frames.unseen_since(self.cursor);
        self.cursor = trace.frames.cursor();
        unseen
    }
}

/// Collects presentation timings recorded after the collector was created.
pub struct PresentationTimingCollector {
    cursor: Cursor,
}

impl PresentationTimingCollector {
    /// How far this collector has come.
    pub closed spec fn seen(&self) -> Cursor {
        self.cursor
    }

    /// Creates a collector that only sees presentations recorded from this point on.
    pub fn new(trace: &FrameTrace) -> (r: Self)
        ensures
            r.seen() == trace.presentations@.cursor(),
    {
        PresentationTimingCollector { cursor: trace.presentations.cursor() }
    }

    /// Returns presentation timings recorded since the previous call.
    pub fn collect_unseen(&mut self, trace: &FrameTrace) -> (r: Vec<PresentationTiming>)
        ensures
            r@ == trace.presentations@.unseen(old(self).seen()),
            final(self).seen() == trace.presentations@.cursor(),
    {
        let unseen = trace.presentations.unseen_since(self.cursor);
        self.cursor = trace.presentations.cursor();
        unseen
    }
}

/// Collects renderer-boundary timings recorded after construction.
pub struct RendererFrameTimingCollector {
    cursor: Cursor,
}

impl RendererFrameTimingCollector {
    /// How far this collector has come.
    pub closed spec fn seen(&self) -> Cursor {
        self.cursor
    }

    /// Creates a collector that only sees later renderer submissions.
    pub fn new(trace: &FrameTrace) -> (r: Self)
        ensures
            r.seen() == trace.renderer_frames@.cursor(),
    {
        RendererFrameTimingCollector { cursor: trace.renderer_frames.cursor() }
    }

    /// Returns renderer submissions recorded since the previous call.
    pub fn collect_unseen(&mut self, trace: &FrameTrace) -> (r: Vec<RendererFrameTiming>)
        ensures
            r@ == trace.renderer_frames@.unseen(old(self).seen()),
            final(self).seen() == trace.renderer_frames@.cursor(),
    {
        let unseen = trace.renderer_frames.unseen_since(self.cursor);
        self.cursor = trace.renderer_frames.cursor();
        unseen
    }
}

/// Every kind of primitive counts: without its own count a kind takes exactly
/// that much from the sum, and without any count nothing is left.
pub proof fn lemma_every_kind_counts(counts: RendererPrimitiveCounts)
    ensures
        (RendererPrimitiveCounts { shadows: 0, ..counts }).sum() + counts.shadows == counts.sum(),
        (RendererPrimitiveCounts { quads: 0, ..counts }).sum() + counts.quads == counts.sum(),
        (RendererPrimitiveCounts { effects: 0, ..counts }).sum() + counts.effects == counts.sum(),
        (RendererPrimitiveCounts { paths: 0, ..counts }).sum() + counts.paths == counts.sum(),
        (RendererPrimitiveCounts { underlines: 0, ..counts }).sum() + counts.underlines
            == counts.sum(),
        (RendererPrimitiveCounts { monochrome_sprites: 0, ..counts }).sum()
            + counts.monochrome_sprites == counts.sum(),
        (RendererPrimitiveCounts { subpixel_sprites: 0, ..counts }).sum() + counts.subpixel_sprites
            == counts.sum(),
        (RendererPrimitiveCounts { polychrome_sprites: 0, ..counts }).sum()
            + counts.polychrome_sprites == counts.sum(),
        (RendererPrimitiveCounts { surfaces: 0, ..counts }).sum() + counts.surfaces == counts.sum(),
        counts.sum() == 0 ==> counts.shadows == 0 && counts.surfaces == 0,
        (RendererPrimitiveCounts {
            shadows: 0,
            quads: 0,
            effects: 0,
            paths: 0,
            underlines: 0,
            monochrome_sprites: 0,
            subpixel_sprites: 0,
            polychrome_sprites: 0,
            surfaces: 0,
        }).sum() == 0,
{
}

/// The total is the sum of the counts as far as it can be told: no count is
/// above it, and it is the highest number there is exactly if the sum reaches
/// that.
pub proof fn lemma_the_total_is_the_sum(counts: RendererPrimitiveCounts)
    ensures
        counts.total_spec() <= counts.sum(),
        counts.total_spec() <= u32::MAX,
        counts.total_spec() < u32::MAX ==> counts.total_spec() == counts.sum(),
        counts.total_spec() == u32::MAX ==> counts.sum() >= u32::MAX,
{
}

/// Durations lead from the start of what they measure to its end; a frame counts
/// from its first invalidation only where that was observed.
pub proof fn lemma_what_frames_take(
    frame: FrameTiming,
    presentation: PresentationTiming,
    renderer: RendererFrameTiming,
)
    ensures
        frame.draw_start.nanos <= frame.draw_end.nanos ==> frame.draw_start.nanos
            + frame.draw_duration_spec().nanos == frame.draw_end.nanos,
        frame.dirty_at is None <==> frame.dirty_to_draw_duration_spec() is None,
        frame.dirty_at matches Some(dirty) ==> (dirty.nanos <= frame.draw_end.nanos ==> dirty.nanos
            + frame.dirty_to_draw_duration_spec()->0.nanos == frame.draw_end.nanos),
        presentation.preparation_start.nanos <= presentation.preparation_end.nanos
            ==> presentation.preparation_start.nanos
            + presentation.preparation_duration_spec().nanos == presentation.preparation_end.nanos,
        renderer.preparation_start.nanos <= renderer.preparation_end.nanos
            ==> renderer.preparation_start.nanos + renderer.preparation_duration_spec().nanos
            == renderer.preparation_end.nanos,
{
}

} // verus!
