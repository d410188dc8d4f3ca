use scene_graph::frame_profiler::{
    frame_trace_enabled, record_frame_timing, record_presentation_timing,
    record_renderer_frame_timing, set_frame_trace_enabled, FrameTiming, FrameTimingCollector,
    FrameTrace, PresentationKind, PresentationTiming, PresentationTimingCollector,
    RendererFallbackReason, RendererFrameOrigin, RendererFrameTiming,
    RendererFrameTimingCollector, RendererPresentKind, RendererPrimitiveCounts, WindowId,
};
use scene_graph::motion::RetainedMotionDamageFallback;
use scene_graph::ring::{entry_capacity, Cursor, TimingRing};
use scene_graph::task_profiler::{
    get_all_timings, get_current_thread_task_timings, get_current_thread_timings,
    save_task_timing, set_trace_enabled, take_all_stats, trace_enabled, update_running_task,
    ProfilingCollector, SerializedLocation, SerializedTaskTiming, SerializedThreadTaskTimings,
    TaskTrace, TasksIncluded, ThreadId,
};
use scene_graph::task_stats::{Location, SpawnTime, TaskStatistics, TaskTiming, YieldTime};
use scene_graph::time::{Duration, Instant};
use std::hash::{DefaultHasher, Hasher};

fn at(micros: u64) -> Instant {
    Instant {
        nanos: Duration::from_micros(micros).as_nanos(),
    }
}

fn here(line: u32) -> Location {
    Location {
        file: "executor.rs",
        line,
        column: 7,
    }
}

fn timing(spawned: u64, start: u64, end: u64) -> TaskTiming {
    TaskTiming {
        location: here(1),
        spawned: SpawnTime(at(spawned)),
        start: at(start),
        end: YieldTime(at(end)),
    }
}

fn polls(stats: &TaskStatistics) -> Vec<u128> {
    stats
        .longest_poll_times
        .iter()
        .map(|timing| timing.poll_duration().as_nanos() / 1_000)
        .collect()
}

fn lifetimes(timings: &[TaskTiming; 5]) -> Vec<u128> {
    let mut lifetimes: Vec<u128> = timings
        .iter()
        .map(|timing| timing.since_spawn().as_nanos() / 1_000)
        .collect();
    lifetimes.sort();
    lifetimes
}

#[test]
fn durations_do_not_go_below_zero() {
    let timing = timing(30, 20, 25);
    assert_eq!(timing.poll_duration(), Duration::from_micros(5));
    assert_eq!(timing.since_spawn(), Duration::from_micros(0));
    let placeholder = TaskTiming::placeholder(at(9));
    assert_eq!(placeholder.poll_duration(), Duration::from_micros(0));
    assert_eq!(placeholder.location.file, "src/task_stats.rs");
    assert_eq!((placeholder.location.line, placeholder.location.column), (72, 23));
    assert_eq!(Duration::from_secs(2).as_nanos(), 2_000_000_000);
}

#[test]
fn the_longest_runtimes_are_listed() {
    let mut stats = TaskStatistics::new(at(0));
    stats.add_runtime(timing(0, 0, 99));
    assert_eq!(lifetimes(&stats.longest_runtimes), [0, 0, 0, 0, 0]);
    for end in [100, 300, 200, 50, 400] {
        stats.add_runtime(timing(0, 0, end));
    }
    // Once a task is listed, placeholders give way to any task.
    assert_eq!(lifetimes(&stats.longest_runtimes), [50, 100, 200, 300, 400]);
    assert_eq!(stats.runtime_to_beat, Duration::from_micros(50));
    stats.add_runtime(timing(0, 0, 49));
    stats.add_runtime(timing(0, 0, 250));
    assert_eq!(lifetimes(&stats.longest_runtimes), [100, 200, 250, 300, 400]);
    assert_eq!(stats.runtime_to_beat, Duration::from_micros(100));
}

#[test]
fn of_equally_short_tasks_the_first_is_replaced() {
    let mut stats = TaskStatistics::new(at(0));
    stats.add_runtime(timing(0, 0, 500));
    stats.add_runtime(timing(0, 0, 600));
    assert_eq!(
        stats.longest_runtimes[0].since_spawn(),
        Duration::from_micros(500)
    );
    assert_eq!(
        stats.longest_runtimes[1].since_spawn(),
        Duration::from_micros(600)
    );
}

#[test]
fn long_polls_are_listed() {
    let mut stats = TaskStatistics::new(at(0));
    stats.add_yield_timing(timing(0, 1_000, 1_099));
    assert_eq!(lifetimes(&stats.longest_poll_times), [0, 0, 0, 0, 0]);
    stats.add_yield_timing(timing(0, 1_000, 1_100));
    assert_eq!(lifetimes(&stats.longest_poll_times), [0, 0, 0, 0, 1_100]);
    assert_eq!(stats.poll_time_to_beat, Duration::from_micros(0));
    assert_eq!(lifetimes(&stats.longest_runtimes), [0, 0, 0, 0, 0]);
}

#[test]
fn the_shortest_poll_leaves_the_list_however_old_its_task_is() {
    let mut stats = TaskStatistics::new(at(0));
    stats.add_yield_timing(timing(0, 0, 900));
    for _ in 0..4 {
        stats.add_yield_timing(timing(0, 4_900, 5_000));
    }
    assert_eq!(stats.poll_time_to_beat, Duration::from_micros(100));
    stats.add_yield_timing(timing(0, 4_901, 5_000));
    assert_eq!(polls(&stats), [900, 100, 100, 100, 100]);
    stats.add_yield_timing(timing(0, 4_800, 5_000));
    assert_eq!(polls(&stats), [900, 200, 100, 100, 100]);
    assert_eq!(stats.poll_time_to_beat, Duration::from_micros(100));
    for poll in [300, 400, 500] {
        stats.add_yield_timing(timing(0, 5_000 - poll, 5_000));
    }
    assert_eq!(polls(&stats), [900, 200, 300, 400, 500]);
    assert_eq!(stats.poll_time_to_beat, Duration::from_micros(200));
}

#[test]
fn statistics_are_reported_line_by_line() {
    let mut stats = TaskStatistics::new(at(0));
    stats.add_yield_timing(timing(0, 1_000, 2_500));
    stats.add_runtime(timing(0, 1_000, 2_500));
    let report = stats.report();
    let lines: Vec<&str> = report.lines().collect();
    assert_eq!(lines.len(), 12);
    assert_eq!(lines[0], "Tasks that blocked the longest before yielding");
    assert_eq!(lines[1], "1.5ms                - executor.rs:7");
    assert_eq!(lines[6], "Tasks that ran the longest");
    assert_eq!(lines[7], "2.5ms                - executor.rs:7");
    assert!(lines[8].starts_with("0ns                  - "));
    assert!(report.ends_with('\n'));

    let wide = vec!["twenty-one characters".to_string(); 5];
    let narrow = vec!["\u{b5}".to_string(); 5];
    let report = stats.report_with(&wide, &narrow);
    let lines: Vec<&str> = report.lines().collect();
    assert_eq!(lines[1], "twenty-one characters - executor.rs:7");
    assert_eq!(lines[7], "\u{b5}                    - executor.rs:7");
}

fn traced() -> TaskTrace {
    let mut trace = TaskTrace::new();
    trace.register_thread(Some("main".to_string()), ThreadId(1), at(0));
    trace.register_thread(None, ThreadId(2), at(0));
    assert!(set_trace_enabled(&mut trace, true));
    trace
}

fn run(trace: &mut TaskTrace, thread: u64, start: u64, end: u64) {
    update_running_task(
        trace,
        ThreadId(thread),
        SpawnTime(at(0)),
        here(start as u32),
        at(start),
    );
    save_task_timing(trace, ThreadId(thread), at(end));
}

#[test]
fn completed_and_running_tasks_are_reported() {
    let mut trace = traced();
    run(&mut trace, 1, 10, 20);
    update_running_task(&mut trace, ThreadId(1), SpawnTime(at(5)), here(3), at(30));
    let completed = get_current_thread_timings(
        &trace,
        ThreadId(1),
        TasksIncluded::OnlyCompleted,
        at(40),
    );
    assert_eq!(completed.timings.len(), 1);
    assert_eq!(completed.thread_name.as_deref(), Some("main"));
    assert_eq!(completed.total_pushed, 1);
    let running = get_current_thread_task_timings(
        &trace,
        ThreadId(1),
        TasksIncluded::CompletedAndRunning,
        at(40),
    );
    assert_eq!(running.timings.len(), 2);
    assert_eq!(running.timings[1].poll_duration(), Duration::from_micros(10));
    assert_eq!(running.total_pushed, 1);

    let all = get_all_timings(&trace, TasksIncluded::OnlyCompleted, at(40));
    assert_eq!(all.len(), 2);
    assert_eq!(all[0].timings.len(), 1);
    assert_eq!(all[1].thread_id, ThreadId(2));
    trace.threads[0].timings = None;
    let live = get_all_timings(&trace, TasksIncluded::OnlyCompleted, at(40));
    assert_eq!(live.len(), 1);
    assert_eq!(live[0].thread_id, ThreadId(2));
}

#[test]
fn disabling_the_trace_clears_it() {
    let mut trace = traced();
    run(&mut trace, 1, 10, 20);
    assert!(trace_enabled(&trace));
    assert!(!set_trace_enabled(&mut trace, true), "nothing changes");
    assert_eq!(trace.threads[0].timings.as_ref().map(|t| t.total_pushed), Some(1));
    assert!(set_trace_enabled(&mut trace, false));
    assert!(!trace_enabled(&trace));
    let report = get_current_thread_timings(
        &trace,
        ThreadId(1),
        TasksIncluded::OnlyCompleted,
        at(40),
    );
    assert!(report.timings.is_empty());
    assert_eq!(report.total_pushed, 0);
    run(&mut trace, 1, 10, 500);
    let report = get_current_thread_timings(
        &trace,
        ThreadId(1),
        TasksIncluded::OnlyCompleted,
        at(600),
    );
    assert!(report.timings.is_empty(), "only statistics are gathered");
    assert_eq!(lifetimes(&report.stats.longest_runtimes), [0, 0, 0, 0, 500]);
}

#[test]
fn taken_statistics_start_over() {
    let mut trace = traced();
    run(&mut trace, 1, 0, 500);
    update_running_task(&mut trace, ThreadId(2), SpawnTime(at(0)), here(3), at(100));
    let stats = take_all_stats(&mut trace, TasksIncluded::CompletedAndRunning, at(800));
    assert_eq!(stats.len(), 2);
    assert_eq!(lifetimes(&stats[0].stats.longest_runtimes), [0, 0, 0, 0, 500]);
    assert_eq!(lifetimes(&stats[1].stats.longest_runtimes), [0, 0, 0, 0, 800]);
    assert_eq!(lifetimes(&stats[1].stats.longest_poll_times), [0, 0, 0, 0, 800]);
    let again = take_all_stats(&mut trace, TasksIncluded::OnlyCompleted, at(900));
    assert_eq!(lifetimes(&again[0].stats.longest_runtimes), [0, 0, 0, 0, 0]);
    assert_eq!(lifetimes(&again[1].stats.longest_runtimes), [0, 0, 0, 0, 0]);
}

#[test]
fn the_last_thread_takes_the_place_of_one_that_ends() {
    let mut trace = traced();
    trace.register_thread(None, ThreadId(3), at(0));
    trace.unregister_thread(ThreadId(1));
    assert!(!trace.knows_thread(ThreadId(1)));
    assert!(trace.knows_thread(ThreadId(3)));
    assert_eq!(trace.threads[0].thread_id, ThreadId(3));
    assert_eq!(trace.threads[1].thread_id, ThreadId(2));
    trace.unregister_thread(ThreadId(1));
    assert_eq!(trace.threads.len(), 2);
}

fn hashed(thread_id: u64) -> u64 {
    let mut hasher = DefaultHasher::new();
    hasher.write(&thread_id.to_le_bytes());
    hasher.finish()
}

#[test]
fn only_unseen_timings_are_collected() {
    let mut trace = traced();
    let mut collector = ProfilingCollector::new(at(5));
    assert_eq!(collector.startup_time(), at(5));
    run(&mut trace, 1, 10, 20);
    run(&mut trace, 1, 30, 50);
    let collect = |trace: &TaskTrace, collector: &mut ProfilingCollector| {
        collector.collect_unseen(get_all_timings(
            trace,
            TasksIncluded::OnlyCompleted,
            at(1_000),
        ))
    };
    let first = collect(&trace, &mut collector);
    assert_eq!(first.len(), 1, "nothing is new on the second thread");
    assert_eq!(first[0].thread_id, hashed(1));
    assert_eq!(first[0].thread_name.as_deref(), Some("main"));
    assert_eq!(first[0].new_timings.len(), 2);
    assert_eq!(first[0].new_timings[1].start, 25_000);
    assert_eq!(first[0].new_timings[1].duration, 20_000);
    assert_eq!(first[0].new_timings[1].location.file, "executor.rs");
    assert!(collect(&trace, &mut collector).is_empty());

    run(&mut trace, 1, 60, 61);
    run(&mut trace, 2, 60, 62);
    let second = collect(&trace, &mut collector);
    assert_eq!(second.len(), 2);
    assert_eq!(second[0].new_timings.len(), 1);
    assert_eq!(second[0].new_timings[0].location.line, 60);
    assert_eq!(second[1].new_timings[0].duration, 2_000);

    collector.reset();
    assert_eq!(collect(&trace, &mut collector)[0].new_timings.len(), 3);
}

#[test]
fn what_is_traced_after_tracing_was_off_is_collected() {
    let mut trace = traced();
    let mut collector = ProfilingCollector::new(at(0));
    let collect = |trace: &TaskTrace, collector: &mut ProfilingCollector| {
        collector.collect_unseen(get_all_timings(
            trace,
            TasksIncluded::OnlyCompleted,
            at(1_000),
        ))
    };
    for start in [10, 20, 30] {
        run(&mut trace, 1, start, start + 5);
    }
    assert_eq!(collect(&trace, &mut collector)[0].new_timings.len(), 3);

    assert!(set_trace_enabled(&mut trace, false));
    assert!(set_trace_enabled(&mut trace, true));
    run(&mut trace, 1, 40, 45);
    run(&mut trace, 1, 50, 55);
    let deltas = collect(&trace, &mut collector);
    assert_eq!(deltas.len(), 1);
    assert_eq!(deltas[0].new_timings.len(), 2);
    assert_eq!(deltas[0].new_timings[0].start, 40_000);
    assert!(collect(&trace, &mut collector).is_empty());

    // As many as before it was off, so that only the clearing tells them apart.
    assert!(set_trace_enabled(&mut trace, false));
    assert!(set_trace_enabled(&mut trace, true));
    run(&mut trace, 1, 60, 65);
    run(&mut trace, 1, 70, 75);
    assert_eq!(collect(&trace, &mut collector)[0].new_timings.len(), 2);
}

#[test]
fn a_cursor_that_fell_behind_gets_what_is_left() {
    let trace = traced();
    let mut reports = get_all_timings(&trace, TasksIncluded::OnlyCompleted, at(0));
    reports.truncate(1);
    let mut collector = ProfilingCollector::new(at(0));
    // Ten were recorded, and the last two are kept.
    reports[0].timings = vec![timing(0, 8, 9), timing(0, 9, 10)];
    reports[0].total_pushed = 10;
    let deltas = collector.collect_unseen(reports.clone());
    assert_eq!(deltas[0].new_timings.len(), 2);
    // One more, of which the cursor has seen all but the last.
    reports[0].timings = vec![timing(0, 9, 10), timing(0, 10, 11)];
    reports[0].total_pushed = 11;
    let deltas = collector.collect_unseen(reports);
    assert_eq!(deltas[0].new_timings.len(), 1);
    assert_eq!(deltas[0].new_timings[0].start, 10_000);
}

#[test]
fn timings_are_serialized_relative_to_an_anchor() {
    let serialized = SerializedTaskTiming::from(at(100), timing(0, 150, 160));
    assert_eq!(serialized.start, 50_000);
    assert_eq!(serialized.duration, 10_000);
    let early = SerializedTaskTiming::from(at(200), timing(0, 150, 160));
    assert_eq!(early.start, 0, "before the anchor counts as at it");
    let location = SerializedLocation::from(&here(12));
    assert_eq!(location.file, "executor.rs");
    assert_eq!((location.line, location.column), (12, 7));

    let mut trace = traced();
    run(&mut trace, 1, 10, 20);
    let report = get_current_thread_timings(
        &trace,
        ThreadId(1),
        TasksIncluded::OnlyCompleted,
        at(40),
    );
    let serialized = SerializedThreadTaskTimings::convert(at(0), report);
    assert_eq!(serialized.thread_name.as_deref(), Some("main"));
    assert_eq!(serialized.thread_id, hashed(1));
    assert_eq!(serialized.timings[0].start, 10_000);
    let both = SerializedTaskTiming::convert(at(0), &[timing(0, 1, 2), timing(0, 3, 4)]);
    assert_eq!(both[1].start, 3_000);
}

fn frame(draw_start: u64) -> FrameTiming {
    FrameTiming {
        window_id: WindowId { id: 1 },
        dirty_at: Some(at(draw_start - 5)),
        invalidations: 2,
        draw_start: at(draw_start),
        draw_end: at(draw_start + 3),
    }
}

fn renderer_frame(start: u64) -> RendererFrameTiming {
    RendererFrameTiming {
        backend: "directx11",
        origin: RendererFrameOrigin::RetainedDamage,
        scene: RendererPrimitiveCounts::default(),
        uploads: RendererPrimitiveCounts::default(),
        uploaded_bytes: 0,
        draw_calls: 1,
        effect_draw_calls: 0,
        damage_rect: Some([0, 0, 1, 1]),
        damaged_pixels: 1,
        fallback: RendererFallbackReason::Scene(RetainedMotionDamageFallback::NoEffect),
        present: RendererPresentKind::Present1,
        preparation_start: at(start),
        preparation_end: at(start + 9),
        gpu_duration: None,
    }
}

fn presentation(start: u64) -> PresentationTiming {
    PresentationTiming {
        window_id: WindowId { id: 1 },
        kind: PresentationKind::Retained,
        motion_requested: true,
        preparation_start: at(start),
        preparation_end: at(start + 4),
    }
}

#[test]
fn frame_durations() {
    assert_eq!(frame(10).draw_duration(), Duration::from_micros(3));
    assert_eq!(
        frame(10).dirty_to_draw_duration(),
        Some(Duration::from_micros(8))
    );
    let mut unobserved = frame(10);
    unobserved.dirty_at = None;
    assert_eq!(unobserved.dirty_to_draw_duration(), None);
    assert_eq!(
        presentation(10).preparation_duration(),
        Duration::from_micros(4)
    );
    assert_eq!(
        renderer_frame(10).preparation_duration(),
        Duration::from_micros(9)
    );
}

#[test]
fn primitive_counts_saturate() {
    let mut counts = RendererPrimitiveCounts::default();
    assert_eq!(counts.total(), 0);
    counts.shadows = 1;
    counts.quads = 2;
    counts.effects = 3;
    counts.paths = 4;
    counts.underlines = 5;
    counts.monochrome_sprites = 6;
    counts.subpixel_sprites = 7;
    counts.polychrome_sprites = 8;
    counts.surfaces = 9;
    assert_eq!(counts.total(), 45);
    counts.quads = u32::MAX;
    assert_eq!(counts.total(), u32::MAX);
}

#[test]
fn frames_are_recorded_while_tracing_is_enabled() {
    let mut trace = FrameTrace::new();
    let mut frames = FrameTimingCollector::new(&trace);
    let mut presentations = PresentationTimingCollector::new(&trace);
    let mut renderer_frames = RendererFrameTimingCollector::new(&trace);
    record_frame_timing(&mut trace, frame(10));
    assert!(!frame_trace_enabled(&trace));
    assert!(frames.collect_unseen(&trace).is_empty());

    assert!(set_frame_trace_enabled(&mut trace, true));
    assert!(!set_frame_trace_enabled(&mut trace, true));
    record_frame_timing(&mut trace, frame(10));
    record_frame_timing(&mut trace, frame(20));
    record_presentation_timing(&mut trace, presentation(30));
    record_renderer_frame_timing(&mut trace, renderer_frame(40));
    let mut late = FrameTimingCollector::new(&trace);
    assert!(late.collect_unseen(&trace).is_empty());
    assert_eq!(frames.collect_unseen(&trace).len(), 2);
    assert!(frames.collect_unseen(&trace).is_empty());
    record_frame_timing(&mut trace, frame(50));
    assert_eq!(frames.collect_unseen(&trace)[0].draw_start, at(50));
    assert_eq!(late.collect_unseen(&trace).len(), 1);
    assert_eq!(presentations.collect_unseen(&trace).len(), 1);
    assert_eq!(renderer_frames.collect_unseen(&trace)[0].backend, "directx11");

    assert!(set_frame_trace_enabled(&mut trace, false));
    assert!(FrameTimingCollector::new(&trace)
        .collect_unseen(&trace)
        .is_empty());
    assert_eq!(trace.frames.total_pushed(), 0);
    assert_eq!(trace.presentations.total_pushed(), 0);
    assert_eq!(trace.renderer_frames.total_pushed(), 0);
}

#[test]
fn what_is_recorded_after_tracing_was_off_is_collected() {
    let mut trace = FrameTrace::new();
    assert!(set_frame_trace_enabled(&mut trace, true));
    let mut frames = FrameTimingCollector::new(&trace);
    let mut presentations = PresentationTimingCollector::new(&trace);
    let mut renderer_frames = RendererFrameTimingCollector::new(&trace);
    for start in [10, 20, 30] {
        record_frame_timing(&mut trace, frame(start));
        record_presentation_timing(&mut trace, presentation(start));
        record_renderer_frame_timing(&mut trace, renderer_frame(start));
    }
    assert_eq!(frames.collect_unseen(&trace).len(), 3);
    assert_eq!(presentations.collect_unseen(&trace).len(), 3);
    assert_eq!(renderer_frames.collect_unseen(&trace).len(), 3);

    assert!(set_frame_trace_enabled(&mut trace, false));
    assert!(set_frame_trace_enabled(&mut trace, true));
    record_frame_timing(&mut trace, frame(40));
    record_presentation_timing(&mut trace, presentation(50));
    record_renderer_frame_timing(&mut trace, renderer_frame(60));
    let unseen = frames.collect_unseen(&trace);
    assert_eq!(unseen.len(), 1);
    assert_eq!(unseen[0].draw_start, at(40));
    let unseen = presentations.collect_unseen(&trace);
    assert_eq!(unseen.len(), 1);
    assert_eq!(unseen[0].preparation_start, at(50));
    let unseen = renderer_frames.collect_unseen(&trace);
    assert_eq!(unseen.len(), 1);
    assert_eq!(unseen[0].preparation_start, at(60));
    assert!(frames.collect_unseen(&trace).is_empty());
    assert!(presentations.collect_unseen(&trace).is_empty());
    assert!(renderer_frames.collect_unseen(&trace).is_empty());
}

#[test]
fn a_full_record_evicts_the_oldest_entry() {
    let mut ring: TimingRing<u8> = TimingRing::new();
    for entry in 0..5 {
        ring.push(entry, 3);
    }
    assert_eq!(ring.total_pushed(), 5);
    let after = |passed: u64| Cursor { clears: 0, passed };
    assert_eq!(ring.unseen_since(after(0)), [2, 3, 4]);
    assert_eq!(ring.unseen_since(after(4)), [4]);
    assert!(ring.unseen_since(after(5)).is_empty());
    assert!(ring.unseen_since(after(99)).is_empty());
    assert_eq!(ring.cursor(), after(5));
    ring.clear();
    assert!(ring.unseen_since(after(0)).is_empty());
    ring.push(7, 3);
    assert_eq!(ring.unseen_since(after(5)), [7], "it was cleared since");
    assert!(ring.unseen_since(ring.cursor()).is_empty());
    assert_eq!(entry_capacity::<[u8; 1024]>(), 16 * 1024);
}
