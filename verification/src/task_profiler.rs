//! Timing records of the tasks that ran on each thread.

use crate::ring::{
    after_events, capacity_for, count_after, entry_capacity, first_unseen,
    lemma_a_look_sees_what_came_since, next_count, push_bounded, pushed, recorded_in, tail, unseen,
    Cursor, RingEvent, RingModel,
};
use crate::task_stats::{
    after_tasks, first_shortest, is_first_shortest, least, lemma_nothing_else_is_listed,
    lemma_time_to_beat_is_the_least, lemma_what_reaches_the_time_to_beat_is_listed, ActiveTiming,
    Location, Measure, SpawnTime, StatsModel, TaskStatistics, TaskTiming, YieldTime,
};
use crate::time::Instant;
use std::collections::{HashMap, VecDeque};
use std::hash::{DefaultHasher, Hasher};
use vstd::bytes::{spec_u64_to_le_bytes, u64_to_le_bytes};
use vstd::layout::size_of;
use vstd::prelude::*;
use vstd::slice::slice_subrange;
use vstd::std_specs::hash::DefaultHasherAdditionalSpecFns;
use vstd::string::StringExecFns;

verus! {

/// A thread.
#[derive(Clone, Copy, Debug, PartialEq, Eq, Structural)]
pub struct ThreadId(pub u64);

/// Which tasks a report covers.
#[derive(Clone, Copy, Debug, PartialEq, Eq, Structural)]
pub enum TasksIncluded {
    /// The tasks that yielded.
    OnlyCompleted,
    /// The tasks that yielded, and the one that is running.
    CompletedAndRunning,
}

/// What the [`ThreadTaskTimings`] of a thread are.
#[verifier::ext_equal]
pub struct ReportModel {
    pub thread_name: Option<String>,
    pub thread_id: ThreadId,
    pub timings: Seq<TaskTiming>,
    pub stats: StatsModel,
    pub total_pushed: u64,
    pub clears: u64,
}

/// What [`ThreadTimings`] are.
#[verifier::ext_equal]
pub struct ThreadModel {
    pub thread_name: Option<String>,
    pub thread_id: ThreadId,
    pub timings: Seq<TaskTiming>,
    pub running: Option<ActiveTiming>,
    pub stats: StatsModel,
    pub total_pushed: u64,
    pub clears: u64,
}

impl ThreadModel {
    /// A thread on which no task ran.
    pub open spec fn fresh(thread_name: Option<String>, thread_id: ThreadId, now: Instant) -> Self {
        ThreadModel {
            thread_name,
            thread_id,
            timings: Seq::empty(),
            running: None,
            stats: StatsModel::fresh(now),
            total_pushed: 0,
            clears: 0,
        }
    }

    /// A task is running since `start`.
    pub open spec fn started(self, spawned: SpawnTime, location: Location, start: Instant) -> Self {
        ThreadModel { running: Some(ActiveTiming { spawned, location, start }), ..self }
    }

    /// The running task yielded: the statistics know of it, and so does the
    /// trace, if there is one.
    pub open spec fn yielded(self, ended: YieldTime, trace: bool) -> Self {
        let timing = self.running->0.until_spec(ended);
        ThreadModel {
            running: None,
            stats: self.stats.with_yield(timing).with_runtime(timing),
            timings: if trace {
                pushed(self.timings, timing, capacity_for(size_of::<TaskTiming>()))
            } else {
                self.timings
            },
            total_pushed: if trace {
                (self.total_pushed + 1) as u64
            } else {
                self.total_pushed
            },
            ..self
        }
    }

    /// Nothing of the trace is left.
    pub open spec fn untraced(self) -> Self {
        ThreadModel {
            timings: Seq::empty(),
            total_pushed: 0,
            clears: count_after(self.clears),
            ..self
        }
    }

    /// The statistics start over.
    pub open spec fn restarted(self, now: Instant) -> Self {
        ThreadModel { stats: StatsModel::fresh(now), ..self }
    }

    /// The timings of a report; the running task counts as if it yielded now.
    pub open spec fn listed(self, included: TasksIncluded, now: Instant) -> Seq<TaskTiming> {
        if included is CompletedAndRunning && self.running is Some {
            self.timings.push(self.running->0.until_spec(YieldTime(now)))
        } else {
            self.timings
        }
    }

    /// What is reported of the thread.
    pub open spec fn report(self, included: TasksIncluded, now: Instant) -> ReportModel {
        ReportModel {
            thread_name: self.thread_name,
            thread_id: self.thread_id,
            timings: self.listed(included, now),
            stats: self.stats,
            total_pushed: self.total_pushed,
            clears: self.clears,
        }
    }

    /// The statistics of a report; the running task counts as if it yielded
    /// now.
    pub open spec fn tallied(self, included: TasksIncluded, now: Instant) -> StatsModel {
        if included is CompletedAndRunning && self.running is Some {
            let timing = self.running->0.until_spec(YieldTime(now));
            self.stats.with_runtime(timing).with_yield(timing)
        } else {
            self.stats
        }
    }
}

/// What is reported of a thread.
#[derive(Clone)]
pub struct ThreadTaskTimings {
    pub thread_name: Option<String>,
    pub thread_id: ThreadId,
    pub timings: Vec<TaskTiming>,
    pub stats: TaskStatistics,
    /// How many timings were recorded since the trace was cleared.
    pub total_pushed: u64,
    /// How often the trace was cleared.
    pub clears: u64,
}

impl View for ThreadTaskTimings {
    type V = ReportModel;

    open spec fn view(&self) -> ReportModel {
        ReportModel {
            thread_name: self.thread_name,
            thread_id: self.thread_id,
            timings: self.timings@,
            stats: self.stats@,
            total_pushed: self.total_pushed,
            clears: self.clears,
        }
    }
}

/// The timings of a thread.
pub struct ThreadTimings {
    pub thread_name: Option<String>,
    pub thread_id: ThreadId,
    pub timings: VecDeque<TaskTiming>,
    pub running: Option<ActiveTiming>,
    pub stats: TaskStatistics,
    /// How many timings were recorded since the trace was cleared.
    pub total_pushed: u64,
    /// How often the trace was cleared.
    pub clears: u64,
}

impl View for ThreadTimings {
    type V = ThreadModel;

    open spec fn view(&self) -> ThreadModel {
        ThreadModel {
            thread_name: self.thread_name,
            thread_id: self.thread_id,
            timings: self.timings@,
            running: self.running,
            stats: self.stats@,
            total_pushed: self.total_pushed,
            clears: self.clears,
        }
    }
}

fn cloned_name(name: &Option<String>) -> (r: Option<String>)
    ensures
        r == *name,
{
    match name {
        Some(name) => Some(name.clone()),
        None => None,
    }
}

impl ThreadTimings {
    /// A thread on which no task ran.
    pub fn new(thread_name: Option<String>, thread_id: ThreadId, now: Instant) -> (r: Self)
        ensures
            r@ == ThreadModel::fresh(thread_name, thread_id, now),
    {
        ThreadTimings {
            thread_name,
            thread_id,
            timings: VecDeque::new(),
            running: None,
            stats: TaskStatistics::new(now),
            total_pushed: 0,
            clears: 0,
        }
    }

    /// A task starts to run.
    pub fn update_running_task(&mut self, spawned: SpawnTime, location: Location, now: Instant)
        ensures
            final(self)@ == old(self)@.started(spawned, location, now),
    {
        self.running = Some(ActiveTiming { spawned, location, start: now });
    }

    /// The running task yields.
    pub fn save_task_timing(&mut self, ended: YieldTime, trace_enabled: bool)
        requires
            old(self).running is Some,
            trace_enabled ==> old(self).total_pushed < u64::MAX,
        ensures
            final(self)@ == old(self)@.yielded(ended, trace_enabled),
    {
        if let Some(running) = self.running {
            self.running = None;
            let timing = running.until(ended);
            self.stats.add_yield_timing(timing);
            self.stats.add_runtime(timing);
            if trace_enabled {
                push_bounded(&mut self.timings, timing, entry_capacity::<TaskTiming>());
                self.total_pushed = self.total_pushed + 1;
            }
        }
    }

    /// What is reported of this thread.
    pub fn get_thread_task_timings(
        &self,
        included: TasksIncluded,
        now: Instant,
    ) -> (r: ThreadTaskTimings)
        ensures
            r@ == self@.report(included, now),
    {
        let mut timings: Vec<TaskTiming> = Vec::new();
        let mut i: usize = 0;
        while i < self.timings.len()
            invariant
                i <= self.timings@.len(),
                timings@ == self.timings@.take(i as int),
            decreases self.timings@.len() - i,
        {
            timings.push(self.timings[i]);
            i = i + 1;
            assert(timings@ =~= self.timings@.take(i as int));
        }
        assert(self.timings@.take(i as int) =~= self.timings@);
        if included == TasksIncluded::CompletedAndRunning {
            if let Some(running) = self.running {
                timings.push(running.until(YieldTime(now)));
            }
        }
        ThreadTaskTimings {
            thread_name: cloned_name(&self.thread_name),
            thread_id: self.thread_id,
            timings,
            stats: self.stats,
            total_pushed: self.total_pushed,
            clears: self.clears,
        }
    }

    /// Forgets the trace of this thread.
    pub fn clear_trace(&mut self)
        ensures
            final(self)@ == old(self)@.untraced(),
    {
        self.timings = VecDeque::new();
        self.total_pushed = 0;
        self.clears = next_count(self.clears);
    }

    /// The statistics of this thread, which start over.
    pub fn take_statistics(&mut self, included: TasksIncluded, now: Instant) -> (r: TaskStatistics)
        ensures
            r@ == old(self)@.tallied(included, now),
            final(self)@ == old(self)@.restarted(now),
    {
        let mut stats = self.stats;
        self.stats = TaskStatistics::new(now);
        if included == TasksIncluded::CompletedAndRunning {
            if let Some(running) = self.running {
                let timing = running.until(YieldTime(now));
                stats.add_runtime(timing);
                stats.add_yield_timing(timing);
            }
        }
        stats
    }
}

/// What [`GlobalThreadTimings`] are.
#[verifier::ext_equal]
pub struct GlobalModel {
    pub thread_id: ThreadId,
    pub timings: Option<ThreadModel>,
}

/// The timings of a thread among those of all threads; `None` once the thread
/// is gone.
pub struct GlobalThreadTimings {
    pub thread_id: ThreadId,
    pub timings: Option<ThreadTimings>,
}

impl View for GlobalThreadTimings {
    type V = GlobalModel;

    open spec fn view(&self) -> GlobalModel {
        GlobalModel {
            thread_id: self.thread_id,
            timings: match self.timings {
                Some(timings) => Some(timings@),
                None => None,
            },
        }
    }
}

/// What the entries of a list of threads are.
pub open spec fn global_models(entries: Seq<GlobalThreadTimings>) -> Seq<GlobalModel> {
    entries.map_values(|entry: GlobalThreadTimings| entry@)
}

/// What is reported of the threads that are not gone.
pub open spec fn reports(
    entries: Seq<GlobalModel>,
    included: TasksIncluded,
    now: Instant,
) -> Seq<ReportModel>
    decreases entries.len(),
{
    if entries.len() == 0 {
        Seq::empty()
    } else {
        let before = reports(entries.drop_last(), included, now);
        let entry = entries.last();
        match entry.timings {
            Some(timings) => before.push(
                ReportModel { thread_id: entry.thread_id, ..timings.report(included, now) },
            ),
            None => before,
        }
    }
}

/// What some reports are.
pub open spec fn report_models(reports: Seq<ThreadTaskTimings>) -> Seq<ReportModel> {
    reports.map_values(|report: ThreadTaskTimings| report@)
}

impl ThreadTaskTimings {
    /// What is reported of the threads that are not gone.
    pub fn collect(
        timings: &[GlobalThreadTimings],
        included: TasksIncluded,
        now: Instant,
    ) -> (r: Vec<Self>)
        ensures
            report_models(r@) == reports(global_models(timings@), included, now),
    {
        let mut collected: Vec<ThreadTaskTimings> = Vec::new();
        let ghost models = global_models(timings@);
        let mut i: usize = 0;
        assert(models.take(0) =~= Seq::empty());
        assert(report_models(collected@) =~= Seq::empty());
        while i < timings.len()
            invariant
                i <= timings@.len(),
                models == global_models(timings@),
                report_models(collected@) == reports(models.take(i as int), included, now),
            decreases timings@.len() - i,
        {
            assert(models.take(i + 1).drop_last() =~= models.take(i as int));
            assert(models[i as int] == timings@[i as int]@);
            let ghost before = collected@;
            if let Some(thread) = &timings[i].timings {
                let report = thread.get_thread_task_timings(included, now);
                let report = ThreadTaskTimings { thread_id: timings[i].thread_id, ..report };
                collected.push(report);
                assert(report_models(collected@) =~= report_models(before).push(report@));
            }
            i = i + 1;
        }
        assert(models.take(i as int) =~= models);
        collected
    }
}

/// What [`ThreadTaskStatistics`] are.
#[verifier::ext_equal]
pub struct StatsReportModel {
    pub thread_name: Option<String>,
    pub thread_id: ThreadId,
    pub stats: StatsModel,
}

/// The statistics of a thread.
pub struct ThreadTaskStatistics {
    pub thread_name: Option<String>,
    pub thread_id: ThreadId,
    pub stats: TaskStatistics,
}

impl View for ThreadTaskStatistics {
    type V = StatsReportModel;

    open spec fn view(&self) -> StatsReportModel {
        StatsReportModel {
            thread_name: self.thread_name,
            thread_id: self.thread_id,
            stats: self.stats@,
        }
    }
}

/// What some statistics are.
pub open spec fn stats_report_models(reports: Seq<ThreadTaskStatistics>) -> Seq<StatsReportModel> {
    reports.map_values(|report: ThreadTaskStatistics| report@)
}

/// The statistics of the threads that are not gone.
pub open spec fn stats_reports(
    entries: Seq<GlobalModel>,
    included: TasksIncluded,
    now: Instant,
) -> Seq<StatsReportModel>
    decreases entries.len(),
{
    if entries.len() == 0 {
        Seq::empty()
    } else {
        let before = stats_reports(entries.drop_last(), included, now);
        let entry = entries.last();
        match entry.timings {
            Some(timings) => before.push(
                StatsReportModel {
                    thread_name: timings.thread_name,
                    thread_id: entry.thread_id,
                    stats: timings.tallied(included, now),
                },
            ),
            None => before,
        }
    }
}

/// The statistics of every thread that is not gone start over.
pub open spec fn all_restarted(entries: Seq<GlobalModel>, now: Instant) -> Seq<GlobalModel> {
    entries.map_values(
        |entry: GlobalModel|
            GlobalModel {
                timings: match entry.timings {
                    Some(timings) => Some(timings.restarted(now)),
                    None => None,
                },
                ..entry
            },
    )
}

impl ThreadTaskStatistics {
    /// The statistics of the threads that are not gone, which start over.
    pub fn collect_and_reset(
        timings: &mut Vec<GlobalThreadTimings>,
        included: TasksIncluded,
        now: Instant,
    ) -> (r: Vec<Self>)
        ensures
            stats_report_models(r@) == stats_reports(
                global_models(old(timings)@),
                included,
                now,
            ),
            global_models(final(timings)@) == all_restarted(global_models(old(timings)@), now),
    {
        let mut collected: Vec<ThreadTaskStatistics> = Vec::new();
        let ghost models = global_models(timings@);
        let ghost reset = all_restarted(models, now);
        let mut i: usize = 0;
        assert(models.take(0) =~= Seq::empty());
        assert(stats_report_models(collected@) =~= Seq::empty());
        assert(global_models(timings@) =~= reset.take(0) + models.skip(0));
        while i < timings.len()
            invariant
                i <= timings@.len(),
                timings@.len() == models.len(),
                reset == all_restarted(models, now),
                global_models(timings@) == reset.take(i as int) + models.skip(i as int),
                stats_report_models(collected@) == stats_reports(
                    models.take(i as int),
                    included,
                    now,
                ),
            decreases timings@.len() - i,
        {
            assert(models.take(i + 1).drop_last() =~= models.take(i as int));
            let ghost before = collected@;
            let ghost entries = timings@;
            assert(global_models(entries)[i as int] == entries[i as int]@);
            assert(models[i as int] == entries[i as int]@);
            let thread_id = timings[i].thread_id;
            if let Some(thread) = &mut timings[i].timings {
                let thread_name = cloned_name(&thread.thread_name);
                let stats = thread.take_statistics(included, now);
                let report = ThreadTaskStatistics { thread_name, thread_id, stats };
                collected.push(report);
                assert(stats_report_models(collected@) =~= stats_report_models(before).push(
                    report@,
                ));
            }
            assert(timings@[i as int]@ == reset[i as int]);
            assert forall|j: int| 0 <= j < models.len() implies #[trigger] global_models(
                timings@,
            )[j] == (reset.take(i + 1) + models.skip(i + 1))[j] by {
                if j != i {
                    assert(timings@[j] == entries[j]);
                    assert(global_models(entries)[j] == entries[j]@);
                }
            }
            assert(global_models(timings@) =~= reset.take(i + 1) + models.skip(i + 1));
            i = i + 1;
        }
        assert(models.take(i as int) =~= models);
        assert(reset.take(i as int) + models.skip(i as int) =~= reset);
        collected
    }
}

/// What a [`SerializedLocation`] is.
#[verifier::ext_equal]
pub struct LocationModel {
    pub file: Seq<char>,
    pub line: u32,
    pub column: u32,
}

/// Serializable variant of [`Location`]
#[derive(Clone, Debug)]
pub struct SerializedLocation {
    /// Name of the source file
    pub file: String,
    /// Line in the source file
    pub line: u32,
    /// Column in the source file
    pub column: u32,
}

impl View for SerializedLocation {
    type V = LocationModel;

    open spec fn view(&self) -> LocationModel {
        LocationModel { file: self.file@, line: self.line, column: self.column }
    }
}

/// What a location is in its serializable form.
pub open spec fn serialized_location(location: Location) -> LocationModel {
    LocationModel { file: location.file@, line: location.line, column: location.column }
}

impl From<&Location> for SerializedLocation {
    fn from(value: &Location) -> (r: Self)
        ensures
            r@ == serialized_location(*value),
    {
        SerializedLocation {
            file: String::from_str(value.file),
            line: value.line,
            column: value.column,
        }
    }
}

impl vstd::std_specs::convert::FromSpecImpl<&Location> for SerializedLocation {
    open spec fn obeys_from_spec() -> bool {
        false
    }

    open spec fn from_spec(value: &Location) -> Self {
        arbitrary()
    }
}

/// What a [`SerializedTaskTiming`] is.
#[verifier::ext_equal]
pub struct SerializedModel {
    pub location: LocationModel,
    pub start: u128,
    pub duration: u128,
}

/// Serializable variant of [`TaskTiming`]
#[derive(Clone, Debug)]
pub struct SerializedTaskTiming {
    /// Location of the timing
    pub location: SerializedLocation,
    /// Time at which the measurement was reported in nanoseconds
    pub start: u128,
    /// Duration of the measurement in nanoseconds
    pub duration: u128,
}

impl View for SerializedTaskTiming {
    type V = SerializedModel;

    open spec fn view(&self) -> SerializedModel {
        SerializedModel {
            location: self.location@,
            start: self.start,
            duration: self.duration,
        }
    }
}

/// What a timing is in its serializable form: its start counts from `anchor`.
pub open spec fn serialized(anchor: Instant, timing: TaskTiming) -> SerializedModel {
    SerializedModel {
        location: serialized_location(timing.location),
        start: timing.start.duration_since_spec(anchor).nanos,
        duration: timing.poll_duration_spec().nanos,
    }
}

/// What some timings are in their serializable form.
pub open spec fn all_serialized(
    anchor: Instant,
    timings: Seq<TaskTiming>,
) -> Seq<SerializedModel> {
    timings.map_values(|timing: TaskTiming| serialized(anchor, timing))
}

/// What some serialized timings are.
pub open spec fn serialized_models(timings: Seq<SerializedTaskTiming>) -> Seq<SerializedModel> {
    timings.map_values(|timing: SerializedTaskTiming| timing@)
}

impl SerializedTaskTiming {
    /// Convert an array of [`TaskTiming`] into their serializable format
    ///
    /// # Params
    ///
    /// `anchor` - [`Instant`] that should be earlier than all timings to use as base anchor
    pub fn convert(anchor: Instant, timings: &[TaskTiming]) -> (r: Vec<SerializedTaskTiming>)
        ensures
            serialized_models(r@) == all_serialized(anchor, timings@),
    {
        let mut converted: Vec<SerializedTaskTiming> = Vec::new();
        let mut i: usize = 0;
        assert(serialized_models(converted@) =~= all_serialized(anchor, timings@).take(0));
        while i < timings.len()
            invariant
                i <= timings@.len(),
                serialized_models(converted@) == all_serialized(anchor, timings@).take(i as int),
            decreases timings@.len() - i,
        {
            let ghost before = converted@;
            let timing = SerializedTaskTiming::from(anchor, timings[i]);
            converted.push(timing);
            i = i + 1;
            assert(serialized_models(converted@) =~= serialized_models(before).push(timing@));
            assert(serialized_models(converted@) =~= all_serialized(anchor, timings@).take(
                i as int,
            ));
        }
        assert(all_serialized(anchor, timings@).take(i as int) =~= all_serialized(
            anchor,
            timings@,
        ));
        converted
    }

    /// `anchor` - [`Instant`] that should be earlier than all timings to use as base anchor
    pub fn from(anchor: Instant, timing: TaskTiming) -> (r: SerializedTaskTiming)
        ensures
            r@ == serialized(anchor, timing),
    {
        SerializedTaskTiming {
            location: SerializedLocation::from(&timing.location),
            start: timing.start.duration_since(anchor).as_nanos(),
            duration: timing.end.0.duration_since(timing.start).as_nanos(),
        }
    }
}

/// The hash of a thread id.
pub open spec fn thread_hash(thread_id: ThreadId) -> u64 {
    DefaultHasher::spec_finish(seq![spec_u64_to_le_bytes(thread_id.0)])
}

fn hash_thread_id(thread_id: ThreadId) -> (r: u64)
    ensures
        r == thread_hash(thread_id),
{
    let bytes = u64_to_le_bytes(thread_id.0);
    let mut hasher = DefaultHasher::new();
    hasher.write(bytes.as_slice());
    assert(hasher@ =~= seq![spec_u64_to_le_bytes(thread_id.0)]);
    hasher.finish()
}

/// Serializable variant of [`ThreadTaskTimings`]
#[derive(Clone, Debug)]
pub struct SerializedThreadTaskTimings {
    /// Thread name
    pub thread_name: Option<String>,
    /// Hash of the thread id
    pub thread_id: u64,
    /// Timing records for this thread
    pub timings: Vec<SerializedTaskTiming>,
}

impl SerializedThreadTaskTimings {
    /// Convert [`ThreadTaskTimings`] into their serializable format
    ///
    /// # Params
    ///
    /// `anchor` - [`Instant`] that should be earlier than all timings to use as base anchor
    pub fn convert(anchor: Instant, timings: ThreadTaskTimings) -> (r: SerializedThreadTaskTimings)
        ensures
            r.thread_name == timings.thread_name,
            r.thread_id == thread_hash(timings.thread_id),
            serialized_models(r.timings@) == all_serialized(anchor, timings.timings@),
    {
        SerializedThreadTaskTimings {
            thread_id: hash_thread_id(timings.thread_id),
            timings: SerializedTaskTiming::convert(anchor, timings.timings.as_slice()),
            thread_name: timings.thread_name,
        }
    }
}

/// What [`ThreadTimingsDelta`] is.
#[verifier::ext_equal]
pub struct DeltaModel {
    pub thread_id: u64,
    pub thread_name: Option<String>,
    pub new_timings: Seq<SerializedModel>,
}

/// What is new on a thread.
#[derive(Clone, Debug)]
pub struct ThreadTimingsDelta {
    /// Hashed thread id
    pub thread_id: u64,
    /// Thread name, if known
    pub thread_name: Option<String>,
    /// New timings since the last call. If the circular buffer wrapped around
    /// since the previous poll, some entries may have been lost.
    pub new_timings: Vec<SerializedTaskTiming>,
}

impl View for ThreadTimingsDelta {
    type V = DeltaModel;

    open spec fn view(&self) -> DeltaModel {
        DeltaModel {
            thread_id: self.thread_id,
            thread_name: self.thread_name,
            new_timings: serialized_models(self.new_timings@),
        }
    }
}

/// What some deltas are.
pub open spec fn delta_models(deltas: Seq<ThreadTimingsDelta>) -> Seq<DeltaModel> {
    deltas.map_values(|delta: ThreadTimingsDelta| delta@)
}

/// How far a collector has come with a thread: nowhere if the thread is not
/// known.
pub open spec fn seen_of(cursors: Map<u64, Cursor>, thread_id: ThreadId) -> Cursor {
    if cursors.contains_key(thread_id.0) {
        cursors[thread_id.0]
    } else {
        Cursor { clears: 0, passed: 0 }
    }
}

impl ReportModel {
    /// The end of what is reported.
    pub open spec fn cursor(self) -> Cursor {
        Cursor { clears: self.clears, passed: self.total_pushed }
    }

    /// What a collector that has come so far has not seen: everything if the
    /// trace was cleared since.
    pub open spec fn unseen(self, seen: Cursor) -> Seq<TaskTiming> {
        unseen(self.timings, self.total_pushed, seen.position_spec(self.clears))
    }
}

/// How far a collector has come after some reports: to their ends.
pub open spec fn cursors_after(
    cursors: Map<u64, Cursor>,
    threads: Seq<ReportModel>,
) -> Map<u64, Cursor>
    decreases threads.len(),
{
    if threads.len() == 0 {
        cursors
    } else {
        cursors_after(cursors, threads.drop_last()).insert(
            threads.last().thread_id.0,
            threads.last().cursor(),
        )
    }
}

/// What is new in some reports, without the threads on which nothing is.
pub open spec fn deltas(
    startup_time: Instant,
    cursors: Map<u64, Cursor>,
    threads: Seq<ReportModel>,
) -> Seq<DeltaModel>
    decreases threads.len(),
{
    if threads.len() == 0 {
        Seq::empty()
    } else {
        let before = deltas(startup_time, cursors, threads.drop_last());
        let thread = threads.last();
        let seen = seen_of(cursors_after(cursors, threads.drop_last()), thread.thread_id);
        let new_timings = thread.unseen(seen);
        if new_timings.len() == 0 {
            before
        } else {
            before.push(
                DeltaModel {
                    thread_id: thread_hash(thread.thread_id),
                    thread_name: thread.thread_name,
                    new_timings: all_serialized(startup_time, new_timings),
                },
            )
        }
    }
}

/// Tracks which timing events have already been seen so that callers can
/// request only unseen events.
pub struct ProfilingCollector {
    startup_time: Instant,
    cursors: HashMap<u64, Cursor>,
}

impl ProfilingCollector {
    /// When the process started.
    pub closed spec fn started_at(&self) -> Instant {
        self.startup_time
    }

    /// How far this collector has come with each thread.
    pub closed spec fn seen(&self) -> Map<u64, Cursor> {
        self.cursors@
    }

    /// A collector that has seen nothing.
    pub fn new(startup_time: Instant) -> (r: Self)
        ensures
            r.started_at() == startup_time,
            r.seen() == Map::<u64, Cursor>::empty(),
    {
        ProfilingCollector { startup_time, cursors: HashMap::new() }
    }

    /// When the process started.
    pub fn startup_time(&self) -> (r: Instant)
        ensures
            r == self.started_at(),
    {
        self.startup_time
    }

    /// What is new in some reports.
    pub fn collect_unseen(&mut self, all_timings: Vec<ThreadTaskTimings>) -> (r: Vec<
        ThreadTimingsDelta,
    >)
        ensures
            delta_models(r@) == deltas(
                old(self).started_at(),
                old(self).seen(),
                report_models(all_timings@),
            ),
            final(self).seen() == cursors_after(old(self).seen(), report_models(all_timings@)),
            final(self).started_at() == old(self).started_at(),
    {
        broadcast use vstd::std_specs::hash::group_hash_axioms;

        let mut collected: Vec<ThreadTimingsDelta> = Vec::new();
        let ghost models = report_models(all_timings@);
        let mut i: usize = 0;
        assert(models.take(0) =~= Seq::empty());
        assert(delta_models(collected@) =~= Seq::empty());
        while i < all_timings.len()
            invariant
                i <= all_timings@.len(),
                models == report_models(all_timings@),
                self.startup_time == old(self).startup_time,
                self.cursors@ == cursors_after(old(self).seen(), models.take(i as int)),
                delta_models(collected@) == deltas(
                    old(self).started_at(),
                    old(self).seen(),
                    models.take(i as int),
                ),
            decreases all_timings@.len() - i,
        {
            assert(models.take(i + 1).drop_last() =~= models.take(i as int));
            let thread = &all_timings[i];
            assert(models[i as int] == thread@);
            let ghost before = collected@;
            let seen = match self.cursors.get(&thread.thread_id.0) {
                Some(cursor) => *cursor,
                None => Cursor { clears: 0, passed: 0 },
            };
            let start: usize = first_unseen(
                thread.timings.len(),
                thread.total_pushed,
                seen.position(thread.clears),
            );
            self.cursors.insert(
                thread.thread_id.0,
                Cursor { clears: thread.clears, passed: thread.total_pushed },
            );
            let new_timings = slice_subrange(
                thread.timings.as_slice(),
                start,
                thread.timings.len(),
            );
            assert(new_timings@ =~= thread@.unseen(seen));
            if new_timings.len() > 0 {
                let delta = ThreadTimingsDelta {
                    thread_id: hash_thread_id(thread.thread_id),
                    thread_name: cloned_name(&thread.thread_name),
                    new_timings: SerializedTaskTiming::convert(self.startup_time, new_timings),
                };
                collected.push(delta);
                assert(delta_models(collected@) =~= delta_models(before).push(delta@));
            }
            i = i + 1;
        }
        assert(models.take(i as int) =~= models);
        collected
    }

    /// Forgets what was seen.
    pub fn reset(&mut self)
        ensures
            final(self).seen() == Map::<u64, Cursor>::empty(),
            final(self).started_at() == old(self).started_at(),
    {
        self.cursors.clear();
    }
}

/// The index of the first entry of a thread; the number of entries if there is
/// none.
pub open spec fn position_of(entries: Seq<GlobalModel>, thread_id: ThreadId) -> int
    decreases entries.len(),
{
    if entries.len() == 0 {
        0
    } else if entries[0].thread_id == thread_id {
        0
    } else {
        1 + position_of(entries.drop_first(), thread_id)
    }
}

proof fn lemma_position_is(entries: Seq<GlobalModel>, thread_id: ThreadId, index: int)
    requires
        0 <= index <= entries.len(),
        forall|i: int| 0 <= i < index ==> (#[trigger] entries[i]).thread_id != thread_id,
        index < entries.len() ==> entries[index].thread_id == thread_id,
    ensures
        position_of(entries, thread_id) == index,
    decreases entries.len(),
{
    if index > 0 {
        let rest = entries.drop_first();
        assert(entries[0].thread_id != thread_id);
        assert forall|i: int| 0 <= i < index - 1 implies (#[trigger] rest[i]).thread_id
            != thread_id by {
            assert(rest[i] == entries[i + 1]);
        }
        lemma_position_is(rest, thread_id, index - 1);
    }
}

fn find_thread(threads: &Vec<GlobalThreadTimings>, thread_id: ThreadId) -> (r: usize)
    ensures
        r == position_of(global_models(threads@), thread_id),
        r <= threads@.len(),
        r < threads@.len() ==> threads@[r as int].thread_id == thread_id,
{
    let mut i: usize = 0;
    while i < threads.len() && threads[i].thread_id != thread_id
        invariant
            i <= threads@.len(),
            forall|j: int| 0 <= j < i ==> (#[trigger] threads@[j]).thread_id != thread_id,
        decreases threads@.len() - i,
    {
        i = i + 1;
    }
    proof {
        let models = global_models(threads@);
        assert forall|j: int| 0 <= j < i implies (#[trigger] models[j]).thread_id != thread_id by {
            assert(models[j] == threads@[j]@);
        }
        lemma_position_is(models, thread_id, i as int);
    }
    i
}

/// The threads without one that ended: the last entry takes its place.
pub open spec fn without_thread(entries: Seq<GlobalModel>, thread_id: ThreadId) -> Seq<
    GlobalModel,
> {
    let index = position_of(entries, thread_id);
    if index < entries.len() {
        entries.update(index, entries.last()).drop_last()
    } else {
        entries
    }
}

/// The threads after tracing was switched from `was` to `on`: what was traced is
/// forgotten when it is switched off.
pub open spec fn switched(entries: Seq<GlobalModel>, was: bool, on: bool) -> Seq<GlobalModel> {
    if was && !on {
        all_untraced(entries)
    } else {
        entries
    }
}

/// The task timings of a process.
pub struct TaskTrace {
    pub enabled: bool,
    pub threads: Vec<GlobalThreadTimings>,
}

impl TaskTrace {
    /// What the threads of this process are.
    pub open spec fn models(&self) -> Seq<GlobalModel> {
        global_models(self.threads@)
    }

    /// The timings of a thread.
    pub open spec fn thread(&self, thread_id: ThreadId) -> ThreadModel {
        self.models()[position_of(self.models(), thread_id)].timings->0
    }

    /// A thread is among those of this process, and not gone.
    pub open spec fn knows(&self, thread_id: ThreadId) -> bool {
        &&& 0 <= position_of(self.models(), thread_id) < self.models().len()
        &&& self.models()[position_of(self.models(), thread_id)].timings is Some
    }

    /// The threads, with other timings for one of them.
    pub open spec fn with_thread(&self, thread_id: ThreadId, thread: ThreadModel) -> Seq<
        GlobalModel,
    > {
        let index = position_of(self.models(), thread_id);
        self.models().update(
            index,
            GlobalModel { timings: Some(thread), ..self.models()[index] },
        )
    }

    /// No thread is known, and nothing is traced.
    pub fn new() -> (r: Self)
        ensures
            !r.enabled,
            r.models() == Seq::<GlobalModel>::empty(),
    {
        let trace = TaskTrace { enabled: false, threads: Vec::new() };
        assert(trace.models() =~= Seq::empty());
        trace
    }

    /// A thread runs its first task.
    pub fn register_thread(
        &mut self,
        thread_name: Option<String>,
        thread_id: ThreadId,
        now: Instant,
    )
        ensures
            final(self).enabled == old(self).enabled,
            final(self).models() == old(self).models().push(
                GlobalModel {
                    thread_id,
                    timings: Some(ThreadModel::fresh(thread_name, thread_id, now)),
                },
            ),
    {
        let timings = ThreadTimings::new(thread_name, thread_id, now);
        self.threads.push(GlobalThreadTimings { thread_id, timings: Some(timings) });
        assert(self.models() =~= old(self).models().push(
            GlobalModel {
                thread_id,
                timings: Some(ThreadModel::fresh(thread_name, thread_id, now)),
            },
        ));
    }

    /// A thread ends: the last entry takes its place.
    pub fn unregister_thread(&mut self, thread_id: ThreadId)
        ensures
            final(self).enabled == old(self).enabled,
            ({
                let before = old(self).models();
                let index = position_of(before, thread_id);
                final(self).models() == (if index < before.len() {
                    before.update(index, before.last()).drop_last()
                } else {
                    before
                })
            }),
            final(self).models() == without_thread(old(self).models(), thread_id),
    {
        let index: usize = find_thread(&self.threads, thread_id);
        if index < self.threads.len() {
            let _ = self.threads.swap_remove(index);
            proof {
                let before = old(self).models();
                assert(self.models() =~= before.update(index as int, before.last()).drop_last());
            }
        }
    }

    /// Whether a thread is among those of this process, and not gone.
    pub fn knows_thread(&self, thread_id: ThreadId) -> (r: bool)
        ensures
            r == self.knows(thread_id),
    {
        let index: usize = find_thread(&self.threads, thread_id);
        if index < self.threads.len() {
            assert(self.models()[index as int] == self.threads@[index as int]@);
            self.threads[index].timings.is_some()
        } else {
            false
        }
    }
}

/// What is reported of every thread.
pub fn get_all_timings(trace: &TaskTrace, included: TasksIncluded, now: Instant) -> (r: Vec<
    ThreadTaskTimings,
>)
    ensures
        report_models(r@) == reports(trace.models(), included, now),
{
    ThreadTaskTimings::collect(trace.threads.as_slice(), included, now)
}

/// What is reported of the current thread.
pub fn get_current_thread_timings(
    trace: &TaskTrace,
    thread_id: ThreadId,
    included: TasksIncluded,
    now: Instant,
) -> (r: ThreadTaskTimings)
    requires
        trace.knows(thread_id),
    ensures
        r@ == trace.thread(thread_id).report(included, now),
{
    get_current_thread_task_timings(trace, thread_id, included, now)
}

/// The statistics of every thread, which start over.
pub fn take_all_stats(trace: &mut TaskTrace, included: TasksIncluded, now: Instant) -> (r: Vec<
    ThreadTaskStatistics,
>)
    ensures
        stats_report_models(r@) == stats_reports(old(trace).models(), included, now),
        final(trace).models() == all_restarted(old(trace).models(), now),
        final(trace).enabled == old(trace).enabled,
{
    ThreadTaskStatistics::collect_and_reset(&mut trace.threads, included, now)
}

/// A task starts to run on the current thread.
pub fn update_running_task(
    trace: &mut TaskTrace,
    thread_id: ThreadId,
    spawned: SpawnTime,
    location: Location,
    now: Instant,
)
    requires
        old(trace).knows(thread_id),
    ensures
        final(trace).enabled == old(trace).enabled,
        final(trace).models() == old(trace).with_thread(
            thread_id,
            old(trace).thread(thread_id).started(spawned, location, now),
        ),
{
    let index: usize = find_thread(&trace.threads, thread_id);
    let ghost entries = trace.threads@;
    assert(global_models(entries)[index as int] == entries[index as int]@);
    if let Some(thread) = &mut trace.threads[index].timings {
        thread.update_running_task(spawned, location, now);
    }
    proof {
        lemma_updated(entries, trace.threads@, index as int);
    }
}

/// The running task of the current thread yields.
pub fn save_task_timing(trace: &mut TaskTrace, thread_id: ThreadId, now: Instant)
    requires
        old(trace).knows(thread_id),
        old(trace).thread(thread_id).running is Some,
        old(trace).enabled ==> old(trace).thread(thread_id).total_pushed < u64::MAX,
    ensures
        final(trace).enabled == old(trace).enabled,
        final(trace).models() == old(trace).with_thread(
            thread_id,
            old(trace).thread(thread_id).yielded(YieldTime(now), old(trace).enabled),
        ),
{
    let index: usize = find_thread(&trace.threads, thread_id);
    let trace_enabled = trace_enabled(trace);
    let ghost entries = trace.threads@;
    assert(global_models(entries)[index as int] == entries[index as int]@);
    if let Some(thread) = &mut trace.threads[index].timings {
        thread.save_task_timing(YieldTime(now), trace_enabled);
    }
    proof {
        lemma_updated(entries, trace.threads@, index as int);
    }
}

proof fn lemma_updated(
    before: Seq<GlobalThreadTimings>,
    after: Seq<GlobalThreadTimings>,
    index: int,
)
    requires
        0 <= index < before.len(),
        after == before.update(index, after[index]),
    ensures
        global_models(after) == global_models(before).update(index, after[index]@),
{
    assert(global_models(after) =~= global_models(before).update(index, after[index]@));
}

/// What is reported of the current thread.
pub fn get_current_thread_task_timings(
    trace: &TaskTrace,
    thread_id: ThreadId,
    included: TasksIncluded,
    now: Instant,
) -> (r: ThreadTaskTimings)
    requires
        trace.knows(thread_id),
    ensures
        r@ == trace.thread(thread_id).report(included, now),
{
    let index: usize = find_thread(&trace.threads, thread_id);
    assert(trace.models()[index as int] == trace.threads@[index as int]@);
    match &trace.threads[index].timings {
        Some(thread) => thread.get_thread_task_timings(included, now),
        None => vstd::pervasive::unreached(),
    }
}

/// Nothing of any trace is left.
pub open spec fn all_untraced(entries: Seq<GlobalModel>) -> Seq<GlobalModel> {
    entries.map_values(
        |entry: GlobalModel|
            GlobalModel {
                timings: match entry.timings {
                    Some(timings) => Some(timings.untraced()),
                    None => None,
                },
                ..entry
            },
    )
}

/// Enables or disables task timing trace collection.
///
/// When transitioning from enabled to disabled, [`save_task_timing`] becomes
/// cheaper since only cheap statistics are gathered. The existing per-thread
/// buffers for traces are cleared so stale data isn't reported after a later
/// re-enable. Calls with the current value are a no-op.
pub fn set_trace_enabled(trace: &mut TaskTrace, enabled: bool) -> (r: bool)
    ensures
        r == (old(trace).enabled != enabled),
        final(trace).enabled == enabled,
        final(trace).models() == (if old(trace).enabled && !enabled {
            all_untraced(old(trace).models())
        } else {
            old(trace).models()
        }),
        final(trace).models() == switched(old(trace).models(), old(trace).enabled, enabled),
{
    if trace.enabled == enabled {
        return false;
    }
    trace.enabled = enabled;
    if !enabled {
        let ghost models = trace.models();
        let ghost cleared = all_untraced(models);
        let mut i: usize = 0;
        assert(trace.models() =~= cleared.take(0) + models.skip(0));
        while i < trace.threads.len()
            invariant
                i <= trace.threads@.len(),
                trace.threads@.len() == models.len(),
                trace.enabled == enabled,
                cleared == all_untraced(models),
                trace.models() == cleared.take(i as int) + models.skip(i as int),
            decreases trace.threads@.len() - i,
        {
            let ghost entries = trace.threads@;
            assert(global_models(entries)[i as int] == entries[i as int]@);
            assert(models[i as int] == entries[i as int]@);
            if let Some(thread) = &mut trace.threads[i].timings {
                thread.clear_trace();
            }
            proof {
                assert(trace.threads@ =~= entries.update(i as int, trace.threads@[i as int]));
                lemma_updated(entries, trace.threads@, i as int);
                assert(trace.threads@[i as int]@ == cleared[i as int]);
                assert(trace.models() =~= cleared.take(i + 1) + models.skip(i + 1));
            }
            i = i + 1;
        }
        assert(cleared.take(i as int) + models.skip(i as int) =~= cleared);
    }
    true
}

/// Whether task timing tracing is enabled.
pub fn trace_enabled(trace: &TaskTrace) -> (r: bool)
    ensures
        r == trace.enabled,
{
    trace.enabled
}

/// The reports are of different threads.
pub open spec fn distinct_threads(threads: Seq<ReportModel>) -> bool {
    forall|i: int, j: int|
        0 <= i < j < threads.len() ==> (#[trigger] threads[i]).thread_id != (
        #[trigger] threads[j]).thread_id
}

proof fn lemma_cursor_of(cursors: Map<u64, Cursor>, threads: Seq<ReportModel>, i: int)
    requires
        distinct_threads(threads),
        0 <= i < threads.len(),
    ensures
        seen_of(cursors_after(cursors, threads), threads[i].thread_id) == threads[i].cursor(),
    decreases threads.len(),
{
    if i < threads.len() - 1 {
        let before = threads.drop_last();
        assert forall|a: int, b: int| 0 <= a < b < before.len() implies (
        #[trigger] before[a]).thread_id != (#[trigger] before[b]).thread_id by {
            assert(before[a] == threads[a] && before[b] == threads[b]);
        }
        lemma_cursor_of(cursors, before, i);
        assert(threads[i].thread_id != threads.last().thread_id);
    }
}

proof fn lemma_cursor_untouched(
    cursors: Map<u64, Cursor>,
    threads: Seq<ReportModel>,
    thread_id: ThreadId,
)
    requires
        forall|i: int| 0 <= i < threads.len() ==> (#[trigger] threads[i]).thread_id != thread_id,
    ensures
        seen_of(cursors_after(cursors, threads), thread_id) == seen_of(cursors, thread_id),
    decreases threads.len(),
{
    if threads.len() > 0 {
        let before = threads.drop_last();
        assert forall|i: int| 0 <= i < before.len() implies (#[trigger] before[i]).thread_id
            != thread_id by {
            assert(before[i] == threads[i]);
        }
        lemma_cursor_untouched(cursors, before, thread_id);
        assert(threads.last() == threads[threads.len() - 1]);
    }
}

proof fn lemma_nothing_new(
    startup_time: Instant,
    cursors: Map<u64, Cursor>,
    threads: Seq<ReportModel>,
)
    requires
        distinct_threads(threads),
        forall|i: int|
            0 <= i < threads.len() ==> (#[trigger] threads[i]).timings.len()
                <= threads[i].total_pushed,
        forall|i: int|
            0 <= i < threads.len() ==> seen_of(cursors, (#[trigger] threads[i]).thread_id)
                == threads[i].cursor(),
    ensures
        deltas(startup_time, cursors, threads) == Seq::<DeltaModel>::empty(),
    decreases threads.len(),
{
    if threads.len() > 0 {
        let before = threads.drop_last();
        let last = threads.last();
        assert(last == threads[threads.len() - 1]);
        assert forall|i: int| 0 <= i < before.len() implies #[trigger] before[i] == threads[i] by {}
        lemma_nothing_new(startup_time, cursors, before);
        assert forall|i: int| 0 <= i < before.len() implies (#[trigger] before[i]).thread_id
            != last.thread_id by {
            assert(before[i] == threads[i]);
        }
        lemma_cursor_untouched(cursors, before, last.thread_id);
        assert(last.unseen(last.cursor()).len() == 0);
    }
}

/// Nothing is reported as new a second time: the same reports of different
/// threads hold nothing new once they were collected. This is about completed
/// tasks; one that is still running is not counted, and may be reported again.
pub proof fn lemma_collected_is_seen(
    startup_time: Instant,
    cursors: Map<u64, Cursor>,
    threads: Seq<ReportModel>,
)
    requires
        distinct_threads(threads),
        forall|i: int|
            0 <= i < threads.len() ==> (#[trigger] threads[i]).timings.len()
                <= threads[i].total_pushed,
    ensures
        deltas(startup_time, cursors_after(cursors, threads), threads)
            == Seq::<DeltaModel>::empty(),
{
    assert forall|i: int| 0 <= i < threads.len() implies seen_of(
        cursors_after(cursors, threads),
        (#[trigger] threads[i]).thread_id,
    ) == threads[i].cursor() by {
        lemma_cursor_of(cursors, threads, i);
    }
    lemma_nothing_new(startup_time, cursors_after(cursors, threads), threads);
}

/// A thread keeps at most as many timings as it recorded, and a report of its
/// completed tasks lists exactly those it keeps.
pub proof fn lemma_trace_counts(
    thread: ThreadModel,
    spawned: SpawnTime,
    location: Location,
    start: Instant,
    ended: YieldTime,
    trace: bool,
    now: Instant,
)
    requires
        thread.timings.len() <= thread.total_pushed,
        thread.total_pushed < u64::MAX,
    ensures
        ({
            let after = thread.started(spawned, location, start).yielded(ended, trace);
            &&& after.timings.len() <= after.total_pushed
            &&& after.running is None
            &&& after.report(TasksIncluded::OnlyCompleted, now).timings == after.timings
            &&& after.report(TasksIncluded::CompletedAndRunning, now).timings == after.timings
        }),
        thread.untraced().timings.len() <= thread.untraced().total_pushed,
        thread.restarted(now).timings.len() <= thread.restarted(now).total_pushed,
{
}

/// No report holds a completed task after the traces were cleared.
pub proof fn lemma_cleared_traces_report_nothing(
    entries: Seq<GlobalModel>,
    now: Instant,
    i: int,
)
    requires
        0 <= i < reports(all_untraced(entries), TasksIncluded::OnlyCompleted, now).len(),
    ensures
        ({
            let report = reports(all_untraced(entries), TasksIncluded::OnlyCompleted, now)[i];
            report.timings.len() == 0 && report.total_pushed == 0
        }),
    decreases entries.len(),
{
    let before = entries.drop_last();
    assert(all_untraced(entries).drop_last() =~= all_untraced(before));
    let included = TasksIncluded::OnlyCompleted;
    if i < reports(all_untraced(before), included, now).len() {
        lemma_cleared_traces_report_nothing(before, now, i);
    }
}

impl ThreadModel {
    /// The trace of the thread.
    pub open spec fn record(self) -> RingModel<TaskTiming> {
        RingModel { kept: self.timings, total: self.total_pushed, clears: self.clears }
    }
}

/// The trace of a thread is a record: a task that yields while tracing is
/// enabled is one more entry, disabling clears it, and nothing else changes
/// it. A report of the completed tasks shows what a cursor into it has not
/// passed.
pub proof fn lemma_a_trace_is_a_record(
    thread: ThreadModel,
    spawned: SpawnTime,
    location: Location,
    now: Instant,
    ended: YieldTime,
    seen: Cursor,
)
    ensures
        ThreadModel::fresh(thread.thread_name, thread.thread_id, now).record()
            == RingModel::<TaskTiming>::empty(),
        thread.started(spawned, location, now).record() == thread.record(),
        thread.yielded(ended, false).record() == thread.record(),
        thread.yielded(ended, true).record() == thread.record().push(
            thread.running->0.until_spec(ended),
            capacity_for(size_of::<TaskTiming>()),
        ),
        thread.untraced().record() == thread.record().cleared(),
        thread.restarted(now).record() == thread.record(),
        thread.report(TasksIncluded::OnlyCompleted, now).unseen(seen) == thread.record().unseen(
            seen,
        ),
        thread.report(TasksIncluded::OnlyCompleted, now).cursor() == thread.record().cursor(),
{
}

/// Whatever is traced on a thread and however often tracing is disabled and
/// enabled between two reports of its completed tasks, what is new in the
/// second is what was traced since the first and is still there: everything
/// but what was cleared again and what was evicted.
pub proof fn lemma_new_is_what_was_traced_since(
    history: Seq<TaskTiming>,
    before: ThreadModel,
    events: Seq<RingEvent<TaskTiming>>,
    after: ThreadModel,
    now: Instant,
    later: Instant,
)
    requires
        before.timings == tail(history, capacity_for(size_of::<TaskTiming>())),
        before.total_pushed == history.len(),
        history.len() + events.len() <= u64::MAX,
        after.record() == after_events(
            before.record(),
            events,
            capacity_for(size_of::<TaskTiming>()),
        ),
    ensures
        after.report(TasksIncluded::OnlyCompleted, later).unseen(
            before.report(TasksIncluded::OnlyCompleted, now).cursor(),
        ) == tail(recorded_in(events), capacity_for(size_of::<TaskTiming>())),
{
    lemma_a_look_sees_what_came_since(
        history,
        before.record(),
        events,
        capacity_for(size_of::<TaskTiming>()),
    );
}

/// A task that ran on a thread, from its start until it yielded.
pub struct Poll {
    pub spawned: SpawnTime,
    pub location: Location,
    pub start: Instant,
    pub ended: YieldTime,
    /// Whether tracing was enabled when it yielded.
    pub traced: bool,
}

/// A thread after it started tasks that yielded, one after the other.
pub open spec fn after_polls(thread: ThreadModel, polls: Seq<Poll>) -> ThreadModel
    decreases polls.len(),
{
    if polls.len() == 0 {
        thread
    } else {
        let poll = polls.last();
        after_polls(thread, polls.drop_last()).started(
            poll.spawned,
            poll.location,
            poll.start,
        ).yielded(poll.ended, poll.traced)
    }
}

/// The timings of some tasks.
pub open spec fn timings_of(polls: Seq<Poll>) -> Seq<TaskTiming> {
    Seq::new(
        polls.len(),
        |i: int|
            TaskTiming {
                location: polls[i].location,
                spawned: polls[i].spawned,
                start: polls[i].start,
                end: polls[i].ended,
            },
    )
}

proof fn lemma_statistics_follow_the_polls(thread: ThreadModel, polls: Seq<Poll>)
    ensures
        after_polls(thread, polls).stats.polls() == after_tasks(
            thread.stats.polls(),
            timings_of(polls),
            Measure::PollTime,
        ),
        after_polls(thread, polls).stats.runtimes() == after_tasks(
            thread.stats.runtimes(),
            timings_of(polls),
            Measure::Lifetime,
        ),
    decreases polls.len(),
{
    if polls.len() > 0 {
        let before = polls.drop_last();
        lemma_statistics_follow_the_polls(thread, before);
        assert(timings_of(polls).drop_last() =~= timings_of(before));
        let stats = after_polls(thread, before).stats;
        let timing = timings_of(polls).last();
        assert(after_polls(thread, polls).stats == stats.with_yield(timing).with_runtime(timing));
        assert(stats.with_yield(timing).polls() =~= stats.polls().noted(
            timing,
            Measure::PollTime,
        ));
        assert(stats.with_yield(timing).with_runtime(timing).polls() =~= stats.with_yield(
            timing,
        ).polls());
        assert(stats.with_yield(timing).runtimes() =~= stats.runtimes());
        assert(stats.with_yield(timing).with_runtime(timing).runtimes() =~= stats.with_yield(
            timing,
        ).runtimes().noted(timing, Measure::Lifetime));
    }
}

/// Whatever tasks a thread started and yielded since its statistics began, and
/// whether or not they were traced: every one whose poll took at least the time
/// to beat at that moment is listed among the longest polls, or took no longer
/// than any that is listed; and every one that had lived at least the time to
/// beat is listed among the longest lives, or had lived no longer than any that
/// is listed.
pub proof fn lemma_the_longest_that_yielded_are_listed(
    thread: ThreadModel,
    now: Instant,
    polls: Seq<Poll>,
    i: int,
)
    requires
        0 <= i < polls.len(),
    ensures
        ({
            let start = thread.restarted(now);
            let stats = after_polls(start, polls).stats;
            let then = after_polls(start, polls.take(i)).stats;
            let poll = polls[i];
            let timing = TaskTiming {
                location: poll.location,
                spawned: poll.spawned,
                start: poll.start,
                end: poll.ended,
            };
            let took = poll.ended.0.duration_since_spec(poll.start).nanos;
            let lived = poll.ended.0.duration_since_spec(poll.spawned.0).nanos;
            &&& stats.longest_poll_times.len() == 5
            &&& stats.longest_runtimes.len() == 5
            &&& took >= then.poll_time_to_beat.nanos ==> {
                ||| stats.longest_poll_times.contains(timing)
                ||| forall|j: int|
                    0 <= j < 5 ==> {
                        let listed = #[trigger] stats.longest_poll_times[j];
                        took <= listed.end.0.duration_since_spec(listed.start).nanos
                    }
            }
            &&& lived >= then.runtime_to_beat.nanos ==> {
                ||| stats.longest_runtimes.contains(timing)
                ||| forall|j: int|
                    0 <= j < 5 ==> {
                        let listed = #[trigger] stats.longest_runtimes[j];
                        lived <= listed.end.0.duration_since_spec(listed.spawned.0).nanos
                    }
            }
        }),
{
    let start = thread.restarted(now);
    let history = timings_of(polls);
    let (a, b) = (start.stats.polls(), start.stats.runtimes());
    lemma_statistics_follow_the_polls(start, polls);
    lemma_statistics_follow_the_polls(start, polls.take(i));
    assert(timings_of(polls.take(i)) =~= history.take(i));
    lemma_fresh_lists(now);
    let stats = after_polls(start, polls).stats;
    let then = after_polls(start, polls.take(i)).stats;
    lemma_time_to_beat_is_the_least(a, history, Measure::PollTime);
    lemma_time_to_beat_is_the_least(b, history, Measure::Lifetime);
    assert(stats.polls().listed == stats.longest_poll_times);
    assert(stats.runtimes().listed == stats.longest_runtimes);
    if Measure::PollTime.of_spec(history[i]).nanos >= then.polls().to_beat.nanos {
        lemma_what_reaches_the_time_to_beat_is_listed(a, history, Measure::PollTime, i);
        if !stats.longest_poll_times.contains(history[i]) {
            assert forall|j: int| 0 <= j < 5 implies {
                let listed = #[trigger] stats.longest_poll_times[j];
                Measure::PollTime.of_spec(history[i]).nanos <= listed.end.0.duration_since_spec(
                    listed.start,
                ).nanos
            } by {
                assert(Measure::PollTime.of_spec(history[i]).nanos <= Measure::PollTime.of_spec(
                    stats.polls().listed[j],
                ).nanos);
            }
        }
    }
    if Measure::Lifetime.of_spec(history[i]).nanos >= then.runtimes().to_beat.nanos {
        lemma_what_reaches_the_time_to_beat_is_listed(b, history, Measure::Lifetime, i);
        if !stats.longest_runtimes.contains(history[i]) {
            assert forall|j: int| 0 <= j < 5 implies {
                let listed = #[trigger] stats.longest_runtimes[j];
                Measure::Lifetime.of_spec(history[i]).nanos <= listed.end.0.duration_since_spec(
                    listed.spawned.0,
                ).nanos
            } by {
                assert(Measure::Lifetime.of_spec(history[i]).nanos <= Measure::Lifetime.of_spec(
                    stats.runtimes().listed[j],
                ).nanos);
            }
        }
    }
}

proof fn lemma_fresh_lists(now: Instant)
    ensures
        ({
            let stats = StatsModel::fresh(now);
            &&& least(stats.polls().listed, Measure::PollTime).nanos <= stats.polls().to_beat.nanos
            &&& least(stats.runtimes().listed, Measure::Lifetime).nanos
                <= stats.runtimes().to_beat.nanos
            &&& stats.polls().listed.len() == 5
            &&& stats.runtimes().listed.len() == 5
        }),
{
    let stats = StatsModel::fresh(now);
    let polls = stats.polls().listed;
    let runtimes = stats.runtimes().listed;
    assert(is_first_shortest(polls, Measure::PollTime, 0));
    assert(is_first_shortest(runtimes, Measure::Lifetime, 0));
    assert(is_first_shortest(
        polls,
        Measure::PollTime,
        first_shortest(polls, Measure::PollTime),
    ));
    assert(is_first_shortest(
        runtimes,
        Measure::Lifetime,
        first_shortest(runtimes, Measure::Lifetime),
    ));
}

/// Since its statistics began, a thread lists nothing but placeholders and the
/// tasks that yielded on it, none of them more often than it yielded; and the
/// time to beat is that of the shortest that is listed, or what it was at first.
pub proof fn lemma_only_what_yielded_is_listed(
    thread: ThreadModel,
    now: Instant,
    polls: Seq<Poll>,
    task: TaskTiming,
)
    ensures
        ({
            let stats = after_polls(thread.restarted(now), polls).stats;
            let fresh = StatsModel::fresh(now);
            let yielded = timings_of(polls).to_multiset().count(task);
            &&& stats.longest_poll_times.to_multiset().count(task)
                <= fresh.longest_poll_times.to_multiset().count(task) + yielded
            &&& stats.longest_runtimes.to_multiset().count(task)
                <= fresh.longest_runtimes.to_multiset().count(task) + yielded
            &&& stats.polls() == fresh.polls() || {
                &&& forall|j: int|
                    0 <= j < 5 ==> stats.poll_time_to_beat.nanos <= (
                    #[trigger] stats.longest_poll_times[j]).poll_duration_spec().nanos
                &&& exists|j: int|
                    0 <= j < 5 && (#[trigger] stats.longest_poll_times[j]).poll_duration_spec()
                        == stats.poll_time_to_beat
            }
            &&& stats.runtimes() == fresh.runtimes() || {
                &&& forall|j: int|
                    0 <= j < 5 ==> stats.runtime_to_beat.nanos <= (
                    #[trigger] stats.longest_runtimes[j]).since_spawn_spec().nanos
                &&& exists|j: int|
                    0 <= j < 5 && (#[trigger] stats.longest_runtimes[j]).since_spawn_spec()
                        == stats.runtime_to_beat
            }
        }),
{
    let start = thread.restarted(now);
    let history = timings_of(polls);
    let (a, b) = (start.stats.polls(), start.stats.runtimes());
    lemma_statistics_follow_the_polls(start, polls);
    lemma_fresh_lists(now);
    let stats = after_polls(start, polls).stats;
    assert(stats.polls().listed == stats.longest_poll_times);
    assert(stats.runtimes().listed == stats.longest_runtimes);
    lemma_nothing_else_is_listed(a, history, Measure::PollTime, task);
    lemma_nothing_else_is_listed(b, history, Measure::Lifetime, task);
    lemma_time_to_beat_is_the_least(a, history, Measure::PollTime);
    lemma_time_to_beat_is_the_least(b, history, Measure::Lifetime);
    if stats.polls() != a {
        let j = choose|j: int|
            0 <= j < stats.polls().listed.len() && Measure::PollTime.of_spec(
                #[trigger] stats.polls().listed[j],
            ) == stats.polls().to_beat;
        assert(stats.longest_poll_times[j].poll_duration_spec() == stats.poll_time_to_beat);
        assert forall|j: int| 0 <= j < 5 implies stats.poll_time_to_beat.nanos <= (
        #[trigger] stats.longest_poll_times[j]).poll_duration_spec().nanos by {
            assert(stats.polls().to_beat.nanos <= Measure::PollTime.of_spec(
                stats.polls().listed[j],
            ).nanos);
        }
    }
    if stats.runtimes() != b {
        let j = choose|j: int|
            0 <= j < stats.runtimes().listed.len() && Measure::Lifetime.of_spec(
                #[trigger] stats.runtimes().listed[j],
            ) == stats.runtimes().to_beat;
        assert(stats.longest_runtimes[j].since_spawn_spec() == stats.runtime_to_beat);
        assert forall|j: int| 0 <= j < 5 implies stats.runtime_to_beat.nanos <= (
        #[trigger] stats.longest_runtimes[j]).since_spawn_spec().nanos by {
            assert(stats.runtimes().to_beat.nanos <= Measure::Lifetime.of_spec(
                stats.runtimes().listed[j],
            ).nanos);
        }
    }
}

/// A task that starts is the one that runs, and one that yields runs no more;
/// neither touches what the thread is called. Statistics are gathered whether or
/// not there is a trace.
pub proof fn lemma_starting_and_yielding(
    thread: ThreadModel,
    spawned: SpawnTime,
    location: Location,
    start: Instant,
    ended: YieldTime,
)
    ensures
        ({
            let started = thread.started(spawned, location, start);
            let yielded = started.yielded(ended, true);
            &&& started.running == Some(ActiveTiming { spawned, location, start })
            &&& started == (ThreadModel { running: started.running, ..thread })
            &&& yielded.running is None
            &&& yielded.thread_name == thread.thread_name
            &&& yielded.thread_id == thread.thread_id
            &&& yielded.clears == thread.clears
            &&& yielded.stats == started.yielded(ended, false).stats
            &&& started.yielded(ended, false).timings == thread.timings
            &&& started.yielded(ended, false).total_pushed == thread.total_pushed
            &&& thread.total_pushed < u64::MAX ==> yielded.total_pushed == thread.total_pushed + 1
            &&& yielded.timings.len() > 0
            &&& yielded.timings.last() == (TaskTiming { location, spawned, start, end: ended })
            &&& thread.timings.len() < capacity_for(size_of::<TaskTiming>())
                ==> yielded.timings.drop_last() == thread.timings
        }),
{
    let yielded = thread.started(spawned, location, start).yielded(ended, true);
    if thread.timings.len() < capacity_for(size_of::<TaskTiming>()) {
        assert(yielded.timings.drop_last() =~= thread.timings);
    }
}

/// In a report a running task counts as if it yielded now, if it is asked for:
/// the statistics are those after it yielded, and its timing comes last. The
/// thread itself is not touched, and a thread starts over with statistics of
/// nothing.
pub proof fn lemma_running_counts_as_yielded(
    thread: ThreadModel,
    now: Instant,
    traced: bool,
)
    ensures
        thread.running is Some ==> thread.tallied(TasksIncluded::CompletedAndRunning, now)
            == thread.yielded(YieldTime(now), traced).stats,
        thread.running is None ==> thread.tallied(TasksIncluded::CompletedAndRunning, now)
            == thread.stats,
        thread.tallied(TasksIncluded::OnlyCompleted, now) == thread.stats,
        thread.running matches Some(running) ==> thread.report(
            TasksIncluded::CompletedAndRunning,
            now,
        ).timings == thread.timings.push(
            TaskTiming {
                location: running.location,
                spawned: running.spawned,
                start: running.start,
                end: YieldTime(now),
            },
        ),
        thread.running is None ==> thread.report(TasksIncluded::CompletedAndRunning, now).timings
            == thread.timings,
        thread.report(TasksIncluded::OnlyCompleted, now).timings == thread.timings,
        thread.report(TasksIncluded::CompletedAndRunning, now).stats == thread.stats,
        thread.report(TasksIncluded::OnlyCompleted, now).stats == thread.stats,
        thread.report(TasksIncluded::OnlyCompleted, now).thread_name == thread.thread_name,
        thread.report(TasksIncluded::OnlyCompleted, now).thread_id == thread.thread_id,
        thread.report(TasksIncluded::CompletedAndRunning, now).thread_name == thread.thread_name,
        thread.report(TasksIncluded::CompletedAndRunning, now).total_pushed
            == thread.total_pushed,
        thread.restarted(now) == (ThreadModel { stats: StatsModel::fresh(now), ..thread }),
        thread.untraced().stats == thread.stats,
        thread.untraced().running == thread.running,
        thread.untraced().thread_name == thread.thread_name,
        thread.untraced().thread_id == thread.thread_id,
{
    if let Some(running) = thread.running {
        let timing = running.until_spec(YieldTime(now));
        let stats = thread.stats;
        assert(stats.with_runtime(timing).with_yield(timing) =~= stats.with_yield(
            timing,
        ).with_runtime(timing));
    }
}

/// A new thread has a name, an id, no timings, and no task that runs.
pub proof fn lemma_a_new_thread(name: Option<String>, thread_id: ThreadId, now: Instant)
    ensures
        ({
            let thread = ThreadModel::fresh(name, thread_id, now);
            &&& thread.thread_name == name
            &&& thread.thread_id == thread_id
            &&& thread.timings.len() == 0
            &&& thread.total_pushed == 0
            &&& thread.running is None
            &&& thread == thread.restarted(now)
        }),
{
}

/// How many of the first `count` threads are not gone.
pub open spec fn live_before(entries: Seq<GlobalModel>, count: nat) -> nat
    decreases count,
{
    if count == 0 {
        0
    } else {
        live_before(entries, (count - 1) as nat) + (if entries[count - 1].timings is Some {
            1nat
        } else {
            0
        })
    }
}

proof fn lemma_live_before_of_part(entries: Seq<GlobalModel>, count: nat)
    requires
        count < entries.len(),
    ensures
        live_before(entries.drop_last(), count) == live_before(entries, count),
    decreases count,
{
    if count > 0 {
        lemma_live_before_of_part(entries, (count - 1) as nat);
        assert(entries.drop_last()[count - 1] == entries[count - 1]);
    }
}

proof fn lemma_live_before_grows(entries: Seq<GlobalModel>, i: nat, j: nat)
    requires
        i <= j,
    ensures
        live_before(entries, i) <= live_before(entries, j),
    decreases j,
{
    if i < j {
        lemma_live_before_grows(entries, i, (j - 1) as nat);
    }
}

/// There is one report for each thread that is not gone, in the sequence of the
/// threads, under the id that the thread is known by; and so with statistics.
pub proof fn lemma_every_live_thread_is_reported(
    entries: Seq<GlobalModel>,
    included: TasksIncluded,
    now: Instant,
    i: int,
)
    requires
        0 <= i < entries.len(),
    ensures
        reports(entries, included, now).len() == live_before(entries, entries.len()),
        stats_reports(entries, included, now).len() == live_before(entries, entries.len()),
        entries[i].timings matches Some(thread) ==> {
            let at = live_before(entries, i as nat) as int;
            let report = reports(entries, included, now)[at];
            let stats = stats_reports(entries, included, now)[at];
            &&& at < live_before(entries, entries.len())
            &&& report.thread_id == entries[i].thread_id
            &&& report.thread_name == thread.thread_name
            &&& report.timings == thread.report(included, now).timings
            &&& report.stats == thread.stats
            &&& report.total_pushed == thread.total_pushed
            &&& report.clears == thread.clears
            &&& stats.thread_id == entries[i].thread_id
            &&& stats.thread_name == thread.thread_name
            &&& stats.stats == thread.tallied(included, now)
        },
    decreases entries.len(),
{
    let before = entries.drop_last();
    let last = (entries.len() - 1) as nat;
    lemma_live_before_of_part(entries, last);
    if before.len() > 0 {
        let j = if i < before.len() {
            i
        } else {
            0
        };
        lemma_every_live_thread_is_reported(before, included, now, j);
        lemma_live_before_of_part(entries, j as nat);
        assert(before[j] == entries[j]);
        if i < before.len() {
            lemma_live_before_grows(entries, (i + 1) as nat, last);
        }
    }
}

/// To start over and to clear the traces is to do so with each thread that is
/// not gone, and to leave the others and the ids of all.
pub proof fn lemma_every_live_thread_starts_over(
    entries: Seq<GlobalModel>,
    now: Instant,
    i: int,
)
    requires
        0 <= i < entries.len(),
    ensures
        all_restarted(entries, now).len() == entries.len(),
        all_untraced(entries).len() == entries.len(),
        all_restarted(entries, now)[i].thread_id == entries[i].thread_id,
        all_untraced(entries)[i].thread_id == entries[i].thread_id,
        entries[i].timings is None ==> all_restarted(entries, now)[i].timings is None
            && all_untraced(entries)[i].timings is None,
        entries[i].timings matches Some(thread) ==> {
            &&& all_restarted(entries, now)[i].timings == Some(thread.restarted(now))
            &&& all_untraced(entries)[i].timings == Some(thread.untraced())
        },
{
}

/// A thread is found at the first entry of its id, and other timings for it
/// change no other entry.
pub proof fn lemma_only_that_thread_changes(
    trace: &TaskTrace,
    thread_id: ThreadId,
    thread: ThreadModel,
    i: int,
)
    requires
        trace.knows(thread_id),
        0 <= i < trace.models().len(),
    ensures
        ({
            let at = position_of(trace.models(), thread_id);
            let after = trace.with_thread(thread_id, thread);
            &&& trace.models()[at].thread_id == thread_id
            &&& i < at ==> trace.models()[i].thread_id != thread_id
            &&& trace.models()[at].timings == Some(trace.thread(thread_id))
            &&& after.len() == trace.models().len()
            &&& i != at ==> after[i] == trace.models()[i]
            &&& after[at].timings == Some(thread)
            &&& after[at].thread_id == thread_id
        }),
{
    lemma_position_is_the_first(trace.models(), thread_id);
}

proof fn lemma_position_is_the_first(entries: Seq<GlobalModel>, thread_id: ThreadId)
    ensures
        0 <= position_of(entries, thread_id) <= entries.len(),
        position_of(entries, thread_id) < entries.len() ==> entries[position_of(
            entries,
            thread_id,
        )].thread_id == thread_id,
        forall|i: int|
            0 <= i < position_of(entries, thread_id) ==> (#[trigger] entries[i]).thread_id
                != thread_id,
    decreases entries.len(),
{
    if entries.len() > 0 && entries[0].thread_id != thread_id {
        let rest = entries.drop_first();
        lemma_position_is_the_first(rest, thread_id);
        assert forall|i: int| 0 <= i < position_of(entries, thread_id) implies (
        #[trigger] entries[i]).thread_id != thread_id by {
            if i > 0 {
                assert(rest[i - 1] == entries[i]);
            }
        }
    }
}

/// A serialized timing says where the task was spawned, how long after the
/// anchor the poll started and how long it took; what lies before the anchor
/// counts as at it. A list is serialized entry by entry.
pub proof fn lemma_what_is_serialized(
    anchor: Instant,
    timing: TaskTiming,
    timings: Seq<TaskTiming>,
    i: int,
)
    requires
        0 <= i < timings.len(),
    ensures
        ({
            let form = serialized(anchor, timing);
            &&& anchor.nanos <= timing.start.nanos ==> anchor.nanos + form.start
                == timing.start.nanos
            &&& anchor.nanos >= timing.start.nanos ==> form.start == 0
            &&& timing.start.nanos <= timing.end.0.nanos ==> timing.start.nanos + form.duration
                == timing.end.0.nanos
            &&& timing.start.nanos >= timing.end.0.nanos ==> form.duration == 0
            &&& form.location.file == timing.location.file@
            &&& form.location.line == timing.location.line
            &&& form.location.column == timing.location.column
        }),
        all_serialized(anchor, timings).len() == timings.len(),
        all_serialized(anchor, timings)[i] == serialized(anchor, timings[i]),
{
}

/// How many of the first `count` threads have something new.
pub open spec fn news_before(
    cursors: Map<u64, Cursor>,
    threads: Seq<ReportModel>,
    count: nat,
) -> nat
    decreases count,
{
    if count == 0 {
        0
    } else {
        let thread = threads[count - 1];
        news_before(cursors, threads, (count - 1) as nat) + (if thread.unseen(
            seen_of(cursors, thread.thread_id),
        ).len() > 0 {
            1nat
        } else {
            0
        })
    }
}

proof fn lemma_news_before_of_part(
    cursors: Map<u64, Cursor>,
    threads: Seq<ReportModel>,
    count: nat,
)
    requires
        count < threads.len(),
    ensures
        news_before(cursors, threads.drop_last(), count) == news_before(cursors, threads, count),
    decreases count,
{
    if count > 0 {
        lemma_news_before_of_part(cursors, threads, (count - 1) as nat);
        assert(threads.drop_last()[count - 1] == threads[count - 1]);
    }
}

proof fn lemma_news_before_grows(
    cursors: Map<u64, Cursor>,
    threads: Seq<ReportModel>,
    i: nat,
    j: nat,
)
    requires
        i <= j,
    ensures
        news_before(cursors, threads, i) <= news_before(cursors, threads, j),
    decreases j,
{
    if i < j {
        lemma_news_before_grows(cursors, threads, i, (j - 1) as nat);
    }
}

/// Of reports of different threads, each one that holds something that the
/// collector has not seen is told, with all of that and nothing else, in the
/// sequence of the reports; afterwards the collector has come to the end of each
/// report, and no further with the other threads.
pub proof fn lemma_what_is_new_is_told(
    startup_time: Instant,
    cursors: Map<u64, Cursor>,
    threads: Seq<ReportModel>,
    i: int,
    other: ThreadId,
)
    requires
        distinct_threads(threads),
        0 <= i < threads.len(),
        forall|j: int| 0 <= j < threads.len() ==> (#[trigger] threads[j]).thread_id != other,
    ensures
        ({
            let told = deltas(startup_time, cursors, threads);
            let thread = threads[i];
            let unseen = thread.unseen(seen_of(cursors, thread.thread_id));
            let at = news_before(cursors, threads, i as nat) as int;
            &&& told.len() == news_before(cursors, threads, threads.len())
            &&& unseen.len() > 0 ==> {
                &&& at < told.len()
                &&& told[at].thread_id == thread_hash(thread.thread_id)
                &&& told[at].thread_name == thread.thread_name
                &&& told[at].new_timings == all_serialized(startup_time, unseen)
            }
        }),
        seen_of(cursors_after(cursors, threads), threads[i].thread_id) == (Cursor {
            clears: threads[i].clears,
            passed: threads[i].total_pushed,
        }),
        seen_of(cursors_after(cursors, threads), other) == seen_of(cursors, other),
        !cursors.contains_key(other.0) ==> seen_of(cursors, other).passed == 0,
        cursors.contains_key(other.0) ==> seen_of(cursors, other) == cursors[other.0],
    decreases threads.len(),
{
    lemma_cursor_of(cursors, threads, i);
    lemma_cursor_untouched(cursors, threads, other);
    let before = threads.drop_last();
    let last = (threads.len() - 1) as nat;
    let thread = threads.last();
    assert(thread == threads[last as int]);
    assert forall|a: int, b: int| 0 <= a < b < before.len() implies (
    #[trigger] before[a]).thread_id != (#[trigger] before[b]).thread_id by {
        assert(before[a] == threads[a] && before[b] == threads[b]);
    }
    assert forall|j: int| 0 <= j < before.len() implies (#[trigger] before[j]).thread_id
        != other by {
        assert(before[j] == threads[j]);
    }
    assert forall|j: int| 0 <= j < before.len() implies (#[trigger] before[j]).thread_id
        != thread.thread_id by {
        assert(before[j] == threads[j]);
    }
    lemma_cursor_untouched(cursors, before, thread.thread_id);
    lemma_news_before_of_part(cursors, threads, last);
    if before.len() > 0 {
        let j = if i < before.len() {
            i
        } else {
            0
        };
        lemma_what_is_new_is_told(startup_time, cursors, before, j, other);
        lemma_news_before_of_part(cursors, threads, j as nat);
        assert(before[j] == threads[j]);
        if i < before.len() {
            lemma_news_before_grows(cursors, threads, (i + 1) as nat, last);
        }
    }
}

/// When a thread ends, its first entry is gone and every other one is still
/// there; where it is not known, nothing changes.
pub proof fn lemma_only_the_thread_that_ended_is_gone(
    entries: Seq<GlobalModel>,
    thread_id: ThreadId,
)
    ensures
        ({
            let after = without_thread(entries, thread_id);
            let at = position_of(entries, thread_id);
            &&& at < entries.len() ==> {
                &&& entries[at].thread_id == thread_id
                &&& after.len() == entries.len() - 1
                &&& after.to_multiset().insert(entries[at]) == entries.to_multiset()
            }
            &&& at == entries.len() ==> {
                &&& after == entries
                &&& forall|i: int|
                    0 <= i < entries.len() ==> (#[trigger] entries[i]).thread_id != thread_id
            }
            &&& at <= entries.len()
        }),
{
    broadcast use vstd::seq_lib::group_to_multiset_ensures;

    lemma_position_is_the_first(entries, thread_id);
    let at = position_of(entries, thread_id);
    if at < entries.len() {
        let updated = entries.update(at, entries.last());
        let after = without_thread(entries, thread_id);
        assert(updated =~= after.push(entries.last()));
        assert(updated.to_multiset() =~= after.to_multiset().insert(entries.last()));
        assert(entries.contains(entries[at]));
        assert(entries.to_multiset().contains(entries[at]));
        assert(updated.to_multiset() == entries.to_multiset().insert(entries.last()).remove(
            entries[at],
        ));
        assert forall|entry: GlobalModel| #[trigger]
            after.to_multiset().insert(entries[at]).count(entry) == entries.to_multiset().count(
                entry,
            ) by {
            let (left, all) = (after.to_multiset(), entries.to_multiset());
            assert(left.insert(entries.last()).count(entry) == all.insert(
                entries.last(),
            ).remove(entries[at]).count(entry));
        }
        assert(after.to_multiset().insert(entries[at]) =~= entries.to_multiset());
    }
}

/// Switching tracing off forgets every trace and nothing else, and counts as one
/// more clearing; switching it on, or to what it was, changes nothing.
pub proof fn lemma_switching_off_forgets_the_traces(
    entries: Seq<GlobalModel>,
    was: bool,
    on: bool,
    i: int,
)
    requires
        0 <= i < entries.len(),
    ensures
        ({
            let after = switched(entries, was, on);
            &&& on || !was ==> after == entries
            &&& after.len() == entries.len()
            &&& after[i].thread_id == entries[i].thread_id
            &&& was && !on ==> (entries[i].timings matches Some(thread) ==> (
            after[i].timings matches Some(left) && {
                &&& left.timings.len() == 0
                &&& left.total_pushed == 0
                &&& left.clears != thread.clears
                &&& left.stats == thread.stats
                &&& left.running == thread.running
                &&& left.thread_name == thread.thread_name
                &&& left.thread_id == thread.thread_id
            }))
        }),
{
}

} // verus!
