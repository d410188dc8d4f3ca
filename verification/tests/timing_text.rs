use scene_graph::task_stats::{self, SpawnTime, YieldTime};
use scene_graph::time::Instant;
use std::time::Duration;

#[allow(dead_code)]
#[derive(Debug)]
struct Location {
    file: &'static str,
    line: u32,
    column: u32,
}

#[allow(dead_code)]
#[derive(Debug)]
struct TaskTiming {
    location: Location,
    since_spawned: Duration,
    last_poll_duration: Duration,
    total_runtime: Duration,
}

fn timing(file: &'static str, spawned: u128, start: u128, end: u128) -> task_stats::TaskTiming {
    let at = |micros: u128| Instant {
        nanos: micros * 1_000,
    };
    task_stats::TaskTiming {
        location: task_stats::Location {
            file,
            line: 120,
            column: 7,
        },
        spawned: SpawnTime(at(spawned)),
        start: at(start),
        end: YieldTime(at(end)),
    }
}

#[test]
fn a_timing_is_shown_with_its_durations() {
    let now = Instant { nanos: 4_000_000 };
    let timing = timing("executor.rs", 0, 1_000, 2_500);
    assert_eq!(
        timing.debug_text(now, false),
        "TaskTiming { location: Location { file: \"executor.rs\", line: 120, column: 7 }, \
         since_spawned: 4ms, last_poll_duration: 1.5ms, total_runtime: 2.5ms }"
    );
    assert_eq!(
        timing.debug_text_with("file", "a", "b", "c", false),
        "TaskTiming { location: Location { file: file, line: 120, column: 7 }, \
         since_spawned: a, last_poll_duration: b, total_runtime: c }"
    );
}

#[test]
fn a_timing_is_shown_as_a_derived_debug_would() {
    let now = Instant { nanos: 1_000_001 };
    // It was spawned after it ended, and after it is shown.
    for timing in [
        timing("src/a \"quoted\"\tfile.rs", 200, 300, 1_300),
        timing("\u{b5}.rs", 5_000, 3, 4),
    ] {
        let since = |later: Instant, earlier: Instant| {
            Duration::from_nanos(later.nanos.saturating_sub(earlier.nanos) as u64)
        };
        let shown = TaskTiming {
            location: Location {
                file: timing.location.file,
                line: timing.location.line,
                column: timing.location.column,
            },
            since_spawned: since(now, timing.spawned.0),
            last_poll_duration: since(timing.end.0, timing.start),
            total_runtime: since(timing.end.0, timing.spawned.0),
        };
        assert_eq!(timing.debug_text(now, false), format!("{:?}", shown));
        assert_eq!(timing.debug_text(now, true), format!("{:#?}", shown));
    }
}
