//! The polls of tasks, and which of them took the longest.

use crate::text::{decimal, decimal_digits};
use crate::time::{Duration, Instant};
use itertools::Itertools;
use vstd::prelude::*;
use vstd::string::{StrSliceExecFns, StringExecFns};

verus! {

/// Where in the source code a task was spawned.
#[derive(Clone, Copy, Debug)]
pub struct Location {
    /// Name of the source file
    pub file: &'static str,
    /// Line in the source file
    pub line: u32,
    /// Column in the source file
    pub column: u32,
}

/// When a task was spawned.
#[derive(Clone, Copy, Debug, PartialEq, Eq, Structural)]
pub struct SpawnTime(pub Instant);

/// When a task yielded.
#[derive(Clone, Copy, Debug, PartialEq, Eq, Structural)]
pub struct YieldTime(pub Instant);

/// One poll of a task.
#[derive(Clone, Copy)]
pub struct TaskTiming {
    pub location: Location,
    pub spawned: SpawnTime,
    pub start: Instant,
    pub end: YieldTime,
}

/// A poll that has not ended.
#[derive(Clone, Copy, Debug)]
pub struct ActiveTiming {
    pub location: Location,
    pub spawned: SpawnTime,
    pub start: Instant,
}

impl ActiveTiming {
    pub open spec fn until_spec(self, end: YieldTime) -> TaskTiming {
        TaskTiming { location: self.location, spawned: self.spawned, start: self.start, end }
    }

    /// This poll, if it ends at `end`.
    pub fn until(&self, end: YieldTime) -> (r: TaskTiming)
        ensures
            r == self.until_spec(end),
    {
        TaskTiming { location: self.location, spawned: self.spawned, start: self.start, end }
    }
}

impl TaskTiming {
    /// A task timing with a duration of zero. Any task will replace this in history.
    /// Its location is the place in this file where it is made.
    pub fn placeholder(now: Instant) -> (r: Self)
        ensures
            r.spawned.0 == now,
            r.start == now,
            r.end.0 == now,
            r == Self::placeholder_spec(now),
    {
        TaskTiming {
            location: Location { file: "src/task_stats.rs", line: 72, column: 23 },
            spawned: SpawnTime(now),
            start: now,
            end: YieldTime(now),
        }
    }

    pub open spec fn placeholder_spec(now: Instant) -> Self {
        TaskTiming {
            location: Location { file: "src/task_stats.rs", line: 72, column: 23 },
            spawned: SpawnTime(now),
            start: now,
            end: YieldTime(now),
        }
    }

    pub open spec fn poll_duration_spec(self) -> Duration {
        self.end.0.duration_since_spec(self.start)
    }

    /// How long the poll took.
    pub fn poll_duration(&self) -> (r: Duration)
        ensures
            r == self.poll_duration_spec(),
    {
        self.end.0.duration_since(self.start)
    }

    pub open spec fn since_spawn_spec(self) -> Duration {
        self.end.0.duration_since_spec(self.spawned.0)
    }

    /// How long before the end of the poll the task was spawned.
    pub fn since_spawn(&self) -> (r: Duration)
        ensures
            r == self.since_spawn_spec(),
    {
        self.end.0.duration_since(self.spawned.0)
    }
}

/// What tasks are ranked by.
#[derive(Clone, Copy, Debug, PartialEq, Eq, Structural)]
pub enum Measure {
    /// How long the poll took.
    PollTime,
    /// How long before the end of the poll the task was spawned.
    Lifetime,
}

impl Measure {
    pub open spec fn of_spec(self, timing: TaskTiming) -> Duration {
        match self {
            Measure::PollTime => timing.poll_duration_spec(),
            Measure::Lifetime => timing.since_spawn_spec(),
        }
    }

    /// The measure of a task.
    pub fn of(&self, timing: &TaskTiming) -> (r: Duration)
        ensures
            r == self.of_spec(*timing),
    {
        match self {
            Measure::PollTime => timing.poll_duration(),
            Measure::Lifetime => timing.since_spawn(),
        }
    }

    fn nanos_of(&self, timing: &TaskTiming) -> (r: u128)
        ensures
            r == self.of_spec(*timing).nanos,
    {
        self.of(timing).as_nanos()
    }
}

/// No task of the list measures less than the one at `index`, and those before
/// it measure more.
pub open spec fn is_first_shortest(
    timings: Seq<TaskTiming>,
    measure: Measure,
    index: int,
) -> bool {
    &&& 0 <= index < timings.len()
    &&& forall|i: int|
        0 <= i < timings.len() ==> measure.of_spec(timings[index]).nanos <= measure.of_spec(
            #[trigger] timings[i],
        ).nanos
    &&& forall|i: int|
        0 <= i < index ==> measure.of_spec(timings[index]).nanos < measure.of_spec(
            #[trigger] timings[i],
        ).nanos
}

/// The first of the tasks that measure the least.
pub open spec fn first_shortest(timings: Seq<TaskTiming>, measure: Measure) -> int {
    choose|index: int| is_first_shortest(timings, measure, index)
}

/// [`Itertools::position_min_by_key`] over the measure of the tasks: the
/// position of the first of the smallest, `None` for no tasks.
#[verifier::external_body]
fn position_of_shortest(timings: &[TaskTiming], measure: Measure) -> (r: Option<usize>)
    ensures
        match r {
            Some(index) => is_first_shortest(timings@, measure, index as int),
            None => timings@.len() == 0,
        },
{
    timings.iter().position_min_by_key(|timing| measure.nanos_of(timing))
}

proof fn lemma_first_shortest_is(timings: Seq<TaskTiming>, measure: Measure, index: int)
    requires
        is_first_shortest(timings, measure, index),
    ensures
        first_shortest(timings, measure) == index,
{
    let other = first_shortest(timings, measure);
    assert(is_first_shortest(timings, measure, other));
    assert(measure.of_spec(timings[other]).nanos <= measure.of_spec(timings[index]).nanos);
    assert(measure.of_spec(timings[index]).nanos <= measure.of_spec(timings[other]).nanos);
}

/// The tasks of one list, and what a task has to measure to get into it.
#[verifier::ext_equal]
pub struct LongestModel {
    pub to_beat: Duration,
    pub listed: Seq<TaskTiming>,
}

impl LongestModel {
    /// Placeholders, and the time below which no task is of interest.
    pub open spec fn fresh(now: Instant) -> Self {
        LongestModel {
            to_beat: Duration { nanos: 100_000 },
            listed: Seq::new(5, |i: int| TaskTiming::placeholder_spec(now)),
        }
    }

    /// A task that measures enough replaces the first of those that measure
    /// the least; from then on the least of the new list has to be reached.
    pub open spec fn noted(self, task: TaskTiming, measure: Measure) -> Self {
        if measure.of_spec(task).nanos >= self.to_beat.nanos {
            let listed = self.listed.update(first_shortest(self.listed, measure), task);
            LongestModel { to_beat: least(listed, measure), listed }
        } else {
            self
        }
    }
}

/// The least measure of a list.
pub open spec fn least(timings: Seq<TaskTiming>, measure: Measure) -> Duration {
    measure.of_spec(timings[first_shortest(timings, measure)])
}

/// What [`TaskStatistics`] are.
#[verifier::ext_equal]
pub struct StatsModel {
    pub poll_time_to_beat: Duration,
    pub runtime_to_beat: Duration,
    pub longest_poll_times: Seq<TaskTiming>,
    pub longest_runtimes: Seq<TaskTiming>,
}

impl StatsModel {
    /// Placeholders, and the times below which no task is of interest.
    pub open spec fn fresh(now: Instant) -> Self {
        StatsModel {
            poll_time_to_beat: Duration { nanos: 100_000 },
            runtime_to_beat: Duration { nanos: 100_000 },
            longest_poll_times: Seq::new(5, |i: int| TaskTiming::placeholder_spec(now)),
            longest_runtimes: Seq::new(5, |i: int| TaskTiming::placeholder_spec(now)),
        }
    }

    /// The polls that took the longest.
    pub open spec fn polls(self) -> LongestModel {
        LongestModel { to_beat: self.poll_time_to_beat, listed: self.longest_poll_times }
    }

    /// The tasks that have lived the longest.
    pub open spec fn runtimes(self) -> LongestModel {
        LongestModel { to_beat: self.runtime_to_beat, listed: self.longest_runtimes }
    }

    /// A poll that took long enough replaces the shortest listed poll.
    pub open spec fn with_yield(self, task: TaskTiming) -> Self {
        let polls = self.polls().noted(task, Measure::PollTime);
        StatsModel {
            poll_time_to_beat: polls.to_beat,
            longest_poll_times: polls.listed,
            ..self
        }
    }

    /// A task that has lived long enough replaces the entry that has lived the
    /// shortest.
    pub open spec fn with_runtime(self, task: TaskTiming) -> Self {
        let runtimes = self.runtimes().noted(task, Measure::Lifetime);
        StatsModel {
            runtime_to_beat: runtimes.to_beat,
            longest_runtimes: runtimes.listed,
            ..self
        }
    }
}

/// The tasks of a thread that took the longest.
#[derive(Clone, Copy)]
pub struct TaskStatistics {
    pub poll_time_to_beat: Duration,
    pub runtime_to_beat: Duration,
    pub longest_poll_times: [TaskTiming; 5],
    pub longest_runtimes: [TaskTiming; 5],
}

impl View for TaskStatistics {
    type V = StatsModel;

    open spec fn view(&self) -> StatsModel {
        StatsModel {
            poll_time_to_beat: self.poll_time_to_beat,
            runtime_to_beat: self.runtime_to_beat,
            longest_poll_times: self.longest_poll_times@,
            longest_runtimes: self.longest_runtimes@,
        }
    }
}

/// Puts a task in place of the first of those that measure the least, and
/// returns the least measure of the new list.
fn replace_shortest(timings: &mut [TaskTiming; 5], task: TaskTiming, measure: Measure) -> (r:
    Duration)
    ensures
        final(timings)@ == old(timings)@.update(first_shortest(old(timings)@, measure), task),
        r == least(final(timings)@, measure),
{
    let ghost before = timings@;
    if let Some(to_replace) = position_of_shortest(timings.as_slice(), measure) {
        proof {
            lemma_first_shortest_is(before, measure, to_replace as int);
        }
        timings[to_replace] = task;
    }
    let ghost after = timings@;
    let mut index: usize = 0;
    let mut i: usize = 1;
    while i < 5
        invariant
            1 <= i <= 5,
            index < i,
            timings@ == after,
            is_first_shortest(after.take(i as int), measure, index as int),
        decreases 5 - i,
    {
        let shorter = measure.nanos_of(&timings[i]) < measure.nanos_of(&timings[index]);
        assert(after.take(i + 1).take(i as int) =~= after.take(i as int));
        assert forall|j: int| 0 <= j < i implies #[trigger] after.take(i + 1)[j] == after.take(
            i as int,
        )[j] by {}
        if shorter {
            index = i;
        }
        i = i + 1;
    }
    assert(after.take(5) =~= after);
    proof {
        lemma_first_shortest_is(after, measure, index as int);
    }
    measure.of(&timings[index])
}

impl TaskStatistics {
    /// Statistics without a task. Polls that are not problematic are not
    /// tracked.
    pub fn new(now: Instant) -> (r: Self)
        ensures
            r@ == StatsModel::fresh(now),
    {
        let placeholder = TaskTiming::placeholder(now);
        let stats = TaskStatistics {
            poll_time_to_beat: Duration::from_micros(100),
            runtime_to_beat: Duration::from_micros(100),
            longest_poll_times: [placeholder; 5],
            longest_runtimes: [placeholder; 5],
        };
        assert(stats@ =~= StatsModel::fresh(now));
        stats
    }

    /// Takes note of a poll that ended.
    pub fn add_yield_timing(&mut self, task: TaskTiming)
        ensures
            final(self)@ == old(self)@.with_yield(task),
    {
        if task.poll_duration().nanos >= self.poll_time_to_beat.nanos {
            self.poll_time_to_beat =
            replace_shortest(&mut self.longest_poll_times, task, Measure::PollTime);
        }
    }

    /// Takes note of how long a task has lived.
    pub fn add_runtime(&mut self, task: TaskTiming)
        ensures
            final(self)@ == old(self)@.with_runtime(task),
    {
        if task.since_spawn().nanos >= self.runtime_to_beat.nanos {
            self.runtime_to_beat =
            replace_shortest(&mut self.longest_runtimes, task, Measure::Lifetime);
        }
    }
}

/// How `Debug` writes a [`core::time::Duration`] of so many seconds and
/// nanoseconds.
pub uninterp spec fn duration_text(secs: u64, subsec_nanos: u32) -> Seq<char>;

/// The `Debug` text of a [`core::time::Duration`], which depends on nothing
/// but the duration; which text it is, is not stated.
#[verifier::external_body]
fn duration_debug(secs: u64, subsec_nanos: u32) -> (r: String)
    requires
        subsec_nanos < 1_000_000_000,
    ensures
        r@ == duration_text(secs, subsec_nanos),
{
    format!("{:?}", core::time::Duration::new(secs, subsec_nanos))
}

/// A text with blanks behind it, up to a width.
pub open spec fn padded(text: Seq<char>, width: nat) -> Seq<char> {
    if text.len() < width {
        text + Seq::new((width - text.len()) as nat, |i: int| ' ')
    } else {
        text
    }
}

/// The text of a duration.
pub open spec fn text_of(duration: Duration) -> Seq<char> {
    duration_text(
        (duration.nanos / 1_000_000_000) as u64,
        (duration.nanos % 1_000_000_000) as u32,
    )
}

/// One line of a report: the text of a duration in 20 columns, and where the
/// task was spawned.
pub open spec fn report_line(text: Seq<char>, location: Location) -> Seq<char> {
    padded(text, 20) + " - "@ + location.file@ + ":"@ + decimal_digits(location.column as nat)
        + "\n"@
}

/// The lines of the first `count` tasks, with the given texts for their
/// durations.
pub open spec fn report_lines(
    texts: Seq<Seq<char>>,
    timings: Seq<TaskTiming>,
    count: nat,
) -> Seq<char>
    decreases count,
{
    if count == 0 {
        Seq::empty()
    } else {
        report_lines(texts, timings, (count - 1) as nat) + report_line(
            texts[count - 1],
            timings[count - 1].location,
        )
    }
}

/// What some texts are.
pub open spec fn text_models(texts: Seq<String>) -> Seq<Seq<char>> {
    texts.map_values(|text: String| text@)
}

impl StatsModel {
    /// The statistics as text, with the given texts for the durations.
    pub open spec fn report_text(
        self,
        poll_texts: Seq<Seq<char>>,
        runtime_texts: Seq<Seq<char>>,
    ) -> Seq<char> {
        "Tasks that blocked the longest before yielding\n"@ + report_lines(
            poll_texts,
            self.longest_poll_times,
            5,
        ) + "Tasks that ran the longest\n"@ + report_lines(
            runtime_texts,
            self.longest_runtimes,
            5,
        )
    }

    /// The texts of how long the polls took.
    pub open spec fn poll_texts(self) -> Seq<Seq<char>> {
        self.longest_poll_times.map_values(
            |timing: TaskTiming| text_of(timing.poll_duration_spec()),
        )
    }

    /// The texts of how long the tasks have lived.
    pub open spec fn runtime_texts(self) -> Seq<Seq<char>> {
        self.longest_runtimes.map_values(|timing: TaskTiming| text_of(timing.since_spawn_spec()))
    }
}

/// A duration has no more seconds than a clock can count.
pub open spec fn countable(duration: Duration) -> bool {
    duration.nanos / 1_000_000_000 <= u64::MAX
}

fn duration_to_text(duration: Duration) -> (r: String)
    requires
        countable(duration),
    ensures
        r@ == text_of(duration),
{
    duration_debug(
        (duration.nanos / 1_000_000_000) as u64,
        (duration.nanos % 1_000_000_000) as u32,
    )
}

fn pad(text: &mut String, width: usize)
    ensures
        final(text)@ == padded(old(text)@, width as nat),
{
    let start: usize = text.as_str().unicode_len();
    let mut len: usize = start;
    proof {
        reveal_strlit(" ");
    }
    while len < width
        invariant
            start == old(text)@.len(),
            start <= len,
            len <= width || len == start,
            text@ == old(text)@ + Seq::new((len - start) as nat, |i: int| ' '),
            " "@ == seq![' '],
        decreases width - len,
    {
        text.append(" ");
        len = len + 1;
        assert(text@ =~= old(text)@ + Seq::new((len - start) as nat, |i: int| ' '));
    }
    assert(text@ =~= padded(old(text)@, width as nat));
}

fn add_line(report: &mut String, text: &str, location: Location)
    ensures
        final(report)@ == old(report)@ + report_line(text@, location),
{
    let mut column = String::from_str(text);
    pad(&mut column, 20);
    report.append(column.as_str());
    report.append(" - ");
    report.append(location.file);
    report.append(":");
    report.append(decimal(location.column as u64).as_str());
    report.append("\n");
    assert(report@ =~= old(report)@ + report_line(text@, location));
}

fn add_lines(report: &mut String, texts: &Vec<String>, timings: &[TaskTiming; 5])
    requires
        texts@.len() == 5,
    ensures
        final(report)@ == old(report)@ + report_lines(text_models(texts@), timings@, 5),
{
    let ghost models = text_models(texts@);
    let mut i: usize = 0;
    assert(report@ =~= old(report)@ + report_lines(models, timings@, 0));
    while i < 5
        invariant
            i <= 5,
            texts@.len() == 5,
            models == text_models(texts@),
            report@ == old(report)@ + report_lines(models, timings@, i as nat),
        decreases 5 - i,
    {
        assert(models[i as int] == texts@[i as int]@);
        add_line(report, texts[i].as_str(), timings[i].location);
        i = i + 1;
        assert(report@ =~= old(report)@ + report_lines(models, timings@, i as nat));
    }
}

impl TaskStatistics {
    /// The statistics as text, with the given texts for the durations.
    pub fn report_with(&self, poll_texts: &Vec<String>, runtime_texts: &Vec<String>) -> (r: String)
        requires
            poll_texts@.len() == 5,
            runtime_texts@.len() == 5,
        ensures
            r@ == self@.report_text(text_models(poll_texts@), text_models(runtime_texts@)),
    {
        let mut report = String::from_str("Tasks that blocked the longest before yielding\n");
        add_lines(&mut report, poll_texts, &self.longest_poll_times);
        report.append("Tasks that ran the longest\n");
        add_lines(&mut report, runtime_texts, &self.longest_runtimes);
        report
    }

    /// The statistics as text.
    pub fn report(&self) -> (r: String)
        requires
            forall|i: int|
                0 <= i < 5 ==> countable(
                    (#[trigger] self.longest_poll_times@[i]).poll_duration_spec(),
                ),
            forall|i: int|
                0 <= i < 5 ==> countable((#[trigger] self.longest_runtimes@[i]).since_spawn_spec()),
        ensures
            r@ == self@.report_text(self@.poll_texts(), self@.runtime_texts()),
    {
        let mut poll_texts: Vec<String> = Vec::new();
        let mut runtime_texts: Vec<String> = Vec::new();
        let mut i: usize = 0;
        while i < 5
            invariant
                i <= 5,
                forall|i: int|
                    0 <= i < 5 ==> countable(
                        (#[trigger] self.longest_poll_times@[i]).poll_duration_spec(),
                    ),
                forall|i: int|
                    0 <= i < 5 ==> countable(
                        (#[trigger] self.longest_runtimes@[i]).since_spawn_spec(),
                    ),
                text_models(poll_texts@) == self@.poll_texts().take(i as int),
                text_models(runtime_texts@) == self@.runtime_texts().take(i as int),
            decreases 5 - i,
        {
            let ghost polls = poll_texts@;
            let ghost runtimes = runtime_texts@;
            poll_texts.push(duration_to_text(self.longest_poll_times[i].poll_duration()));
            runtime_texts.push(duration_to_text(self.longest_runtimes[i].since_spawn()));
            proof {
                assert(text_models(poll_texts@) =~= text_models(polls).push(poll_texts@.last()@));
                assert(text_models(runtime_texts@) =~= text_models(runtimes).push(
                    runtime_texts@.last()@,
                ));
                assert(text_models(poll_texts@) =~= self@.poll_texts().take(i + 1));
                assert(text_models(runtime_texts@) =~= self@.runtime_texts().take(i + 1));
            }
            i = i + 1;
        }
        assert(self@.poll_texts().take(5) =~= self@.poll_texts());
        assert(self@.runtime_texts().take(5) =~= self@.runtime_texts());
        assert(text_models(poll_texts@).len() == 5);
        assert(text_models(runtime_texts@).len() == 5);
        self.report_with(&poll_texts, &runtime_texts)
    }
}

/// How `Debug` writes a text: in quotes, and escaped.
pub uninterp spec fn quoted_text(text: Seq<char>) -> Seq<char>;

/// The `Debug` text of a [`str`], which depends on nothing but the text; which
/// text it is, is not stated.
#[verifier::external_body]
fn quoted(text: &str) -> (r: String)
    ensures
        r@ == quoted_text(text@),
{
    format!("{:?}", text)
}

impl Location {
    /// How a location is shown within a timing, with the given text for its
    /// file: in one line, or with a line for each field.
    pub open spec fn shown(self, file: Seq<char>, pretty: bool) -> Seq<char> {
        let line = decimal_digits(self.line as nat);
        let column = decimal_digits(self.column as nat);
        if pretty {
            "Location {\n        file: "@ + file + ",\n        line: "@ + line
                + ",\n        column: "@ + column + ",\n    }"@
        } else {
            "Location { file: "@ + file + ", line: "@ + line + ", column: "@ + column + " }"@
        }
    }
}

fn add_location(text: &mut String, location: Location, file: &str, pretty: bool)
    ensures
        final(text)@ == old(text)@ + location.shown(file@, pretty),
{
    let line = decimal(location.line as u64);
    let column = decimal(location.column as u64);
    if pretty {
        text.append("Location {\n        file: ");
        text.append(file);
        text.append(",\n        line: ");
        text.append(line.as_str());
        text.append(",\n        column: ");
        text.append(column.as_str());
        text.append(",\n    }");
    } else {
        text.append("Location { file: ");
        text.append(file);
        text.append(", line: ");
        text.append(line.as_str());
        text.append(", column: ");
        text.append(column.as_str());
        text.append(" }");
    }
    assert(text@ =~= old(text)@ + location.shown(file@, pretty));
}

impl TaskTiming {
    /// How a timing is shown, with the given texts for the file of its location
    /// and for its durations: in one line, or with a line for each field.
    pub open spec fn shown(
        self,
        file: Seq<char>,
        since_spawned: Seq<char>,
        last_poll_duration: Seq<char>,
        total_runtime: Seq<char>,
        pretty: bool,
    ) -> Seq<char> {
        let location = self.location.shown(file, pretty);
        if pretty {
            "TaskTiming {\n    location: "@ + location + ",\n    since_spawned: "@ + since_spawned
                + ",\n    last_poll_duration: "@ + last_poll_duration + ",\n    total_runtime: "@
                + total_runtime + ",\n}"@
        } else {
            "TaskTiming { location: "@ + location + ", since_spawned: "@ + since_spawned
                + ", last_poll_duration: "@ + last_poll_duration + ", total_runtime: "@
                + total_runtime + " }"@
        }
    }

    /// How this timing is shown, with the given texts for the file of its
    /// location and for its durations.
    pub fn debug_text_with(
        &self,
        file: &str,
        since_spawned: &str,
        last_poll_duration: &str,
        total_runtime: &str,
        pretty: bool,
    ) -> (r: String)
        ensures
            r@ == self.shown(
                file@,
                since_spawned@,
                last_poll_duration@,
                total_runtime@,
                pretty,
            ),
    {
        let mut text = String::new();
        if pretty {
            text.append("TaskTiming {\n    location: ");
            add_location(&mut text, self.location, file, pretty);
            text.append(",\n    since_spawned: ");
            text.append(since_spawned);
            text.append(",\n    last_poll_duration: ");
            text.append(last_poll_duration);
            text.append(",\n    total_runtime: ");
            text.append(total_runtime);
            text.append(",\n}");
        } else {
            text.append("TaskTiming { location: ");
            add_location(&mut text, self.location, file, pretty);
            text.append(", since_spawned: ");
            text.append(since_spawned);
            text.append(", last_poll_duration: ");
            text.append(last_poll_duration);
            text.append(", total_runtime: ");
            text.append(total_runtime);
            text.append(" }");
        }
        assert(text@ =~= self.shown(
            file@,
            since_spawned@,
            last_poll_duration@,
            total_runtime@,
            pretty,
        ));
        text
    }

    /// How this timing is shown while debugging: where its task was spawned and
    /// how long ago, how long the poll took, and how long the task had lived by
    /// its end. It is one line, or a line for each field where `pretty`.
    pub fn debug_text(&self, now: Instant, pretty: bool) -> (r: String)
        requires
            countable(now.duration_since_spec(self.spawned.0)),
            countable(self.poll_duration_spec()),
            countable(self.since_spawn_spec()),
        ensures
            r@ == self.shown(
                quoted_text(self.location.file@),
                text_of(now.duration_since_spec(self.spawned.0)),
                text_of(self.poll_duration_spec()),
                text_of(self.since_spawn_spec()),
                pretty,
            ),
    {
        self.debug_text_with(
            quoted(self.location.file).as_str(),
            duration_to_text(now.duration_since(self.spawned.0)).as_str(),
            duration_to_text(self.poll_duration()).as_str(),
            duration_to_text(self.since_spawn()).as_str(),
            pretty,
        )
    }
}

/// A list after the tasks of a history were noted.
pub open spec fn after_tasks(
    longest: LongestModel,
    history: Seq<TaskTiming>,
    measure: Measure,
) -> LongestModel
    decreases history.len(),
{
    if history.len() == 0 {
        longest
    } else {
        after_tasks(longest, history.drop_last(), measure).noted(history.last(), measure)
    }
}

/// The statistics after the polls of a history were noted.
pub open spec fn after_yields(stats: StatsModel, history: Seq<TaskTiming>) -> StatsModel
    decreases history.len(),
{
    if history.len() == 0 {
        stats
    } else {
        after_yields(stats, history.drop_last()).with_yield(history.last())
    }
}

/// The statistics after the tasks of a history were noted.
pub open spec fn after_runtimes(stats: StatsModel, history: Seq<TaskTiming>) -> StatsModel
    decreases history.len(),
{
    if history.len() == 0 {
        stats
    } else {
        after_runtimes(stats, history.drop_last()).with_runtime(history.last())
    }
}

proof fn lemma_some_is_shortest(timings: Seq<TaskTiming>, measure: Measure)
    requires
        timings.len() > 0,
    ensures
        is_first_shortest(timings, measure, first_shortest(timings, measure)),
    decreases timings.len(),
{
    let last = timings.len() - 1;
    if last == 0 {
        assert(is_first_shortest(timings, measure, 0));
    } else {
        let before = timings.drop_last();
        lemma_some_is_shortest(before, measure);
        let index = first_shortest(before, measure);
        assert forall|i: int| 0 <= i < last implies #[trigger] timings[i] == before[i] by {}
        if measure.of_spec(timings[last]).nanos < measure.of_spec(before[index]).nanos {
            assert(is_first_shortest(timings, measure, last));
        } else {
            assert(is_first_shortest(timings, measure, index));
        }
    }
}

/// A list into which a task may come keeps the longest: of the listed tasks
/// and the new one, all stay but one (the result) that measures no more than
/// any that stays, and the least of those that stay has to be reached next.
proof fn lemma_noted_keeps_the_longest(
    longest: LongestModel,
    task: TaskTiming,
    measure: Measure,
) -> (out: TaskTiming)
    requires
        longest.listed.len() > 0,
        longest.to_beat == least(longest.listed, measure),
    ensures
        ({
            let after = longest.noted(task, measure);
            &&& after.listed.len() == longest.listed.len()
            &&& after.listed.to_multiset().insert(out) == longest.listed.to_multiset().insert(task)
            &&& forall|i: int|
                0 <= i < after.listed.len() ==> measure.of_spec(out).nanos <= measure.of_spec(
                    #[trigger] after.listed[i],
                ).nanos
            &&& after.to_beat == least(after.listed, measure)
        }),
{
    broadcast use vstd::seq_lib::group_to_multiset_ensures;

    let listed = longest.listed;
    lemma_some_is_shortest(listed, measure);
    let index = first_shortest(listed, measure);
    if measure.of_spec(task).nanos >= longest.to_beat.nanos {
        let after = listed.update(index, task);
        let out = listed[index];
        assert forall|i: int| 0 <= i < after.len() implies measure.of_spec(out).nanos
            <= measure.of_spec(#[trigger] after[i]).nanos by {
            if i != index {
                assert(after[i] == listed[i]);
            }
        }
        assert(after.to_multiset().insert(out) =~= listed.to_multiset().insert(task));
        out
    } else {
        task
    }
}

/// Of the listed polls and a new one the longest stay, and the runtimes are
/// left alone.
pub proof fn lemma_yield_keeps_the_longest_polls(stats: StatsModel, task: TaskTiming) -> (out:
    TaskTiming)
    requires
        stats.longest_poll_times.len() > 0,
        stats.poll_time_to_beat == least(stats.longest_poll_times, Measure::PollTime),
    ensures
        ({
            let after = stats.with_yield(task);
            let listed = after.longest_poll_times;
            &&& listed.len() == stats.longest_poll_times.len()
            &&& listed.to_multiset().insert(out) == stats.longest_poll_times.to_multiset().insert(
                task,
            )
            &&& forall|i: int|
                0 <= i < listed.len() ==> out.poll_duration_spec().nanos <= (
                #[trigger] listed[i]).poll_duration_spec().nanos
            &&& after.poll_time_to_beat == least(listed, Measure::PollTime)
            &&& after.longest_runtimes == stats.longest_runtimes
            &&& after.runtime_to_beat == stats.runtime_to_beat
        }),
{
    lemma_noted_keeps_the_longest(stats.polls(), task, Measure::PollTime)
}

/// Of the listed tasks and a new one those that have lived the longest stay,
/// and the polls are left alone.
pub proof fn lemma_runtime_keeps_the_longest_lives(stats: StatsModel, task: TaskTiming) -> (out:
    TaskTiming)
    requires
        stats.longest_runtimes.len() > 0,
        stats.runtime_to_beat == least(stats.longest_runtimes, Measure::Lifetime),
    ensures
        ({
            let after = stats.with_runtime(task);
            let listed = after.longest_runtimes;
            &&& listed.len() == stats.longest_runtimes.len()
            &&& listed.to_multiset().insert(out) == stats.longest_runtimes.to_multiset().insert(
                task,
            )
            &&& forall|i: int|
                0 <= i < listed.len() ==> out.since_spawn_spec().nanos <= (
                #[trigger] listed[i]).since_spawn_spec().nanos
            &&& after.runtime_to_beat == least(listed, Measure::Lifetime)
            &&& after.longest_poll_times == stats.longest_poll_times
            &&& after.poll_time_to_beat == stats.poll_time_to_beat
        }),
{
    lemma_noted_keeps_the_longest(stats.runtimes(), task, Measure::Lifetime)
}

/// The time to beat is that of the shortest listed task, once a task is listed.
proof fn lemma_to_beat(now: Instant, history: Seq<TaskTiming>, measure: Measure)
    ensures
        ({
            let longest = after_tasks(LongestModel::fresh(now), history, measure);
            &&& longest.listed.len() == 5
            &&& longest == LongestModel::fresh(now) || longest.to_beat == least(
                longest.listed,
                measure,
            )
        }),
    decreases history.len(),
{
    if history.len() > 0 {
        lemma_to_beat(now, history.drop_last(), measure);
        let before = after_tasks(LongestModel::fresh(now), history.drop_last(), measure);
        lemma_some_is_shortest(before.listed, measure);
    }
}

proof fn lemma_longest_are_listed(
    now: Instant,
    history: Seq<TaskTiming>,
    measure: Measure,
    i: int,
)
    requires
        0 <= i < history.len(),
    ensures
        ({
            let listed = after_tasks(LongestModel::fresh(now), history, measure).listed;
            ||| listed.contains(history[i])
            ||| forall|j: int|
                0 <= j < listed.len() ==> measure.of_spec(history[i]).nanos <= measure.of_spec(
                    #[trigger] listed[j],
                ).nanos
            ||| measure.of_spec(history[i]).nanos < 100_000
        }),
    decreases history.len(),
{
    let last = history.len() - 1;
    let before = after_tasks(LongestModel::fresh(now), history.drop_last(), measure);
    let after = after_tasks(LongestModel::fresh(now), history, measure);
    let task = history.last();
    lemma_to_beat(now, history.drop_last(), measure);
    lemma_some_is_shortest(before.listed, measure);
    let replaced = first_shortest(before.listed, measure);
    if i < last {
        lemma_longest_are_listed(now, history.drop_last(), measure, i);
    }
    if measure.of_spec(task).nanos >= before.to_beat.nanos {
        let listed = after.listed;
        let measured = measure.of_spec(history[i]).nanos;
        assert(listed[replaced] == task);
        if i < last && before.listed.contains(history[i]) {
            let at = choose|at: int|
                0 <= at < before.listed.len() && before.listed[at] == history[i];
            if at != replaced {
                assert(listed[at] == history[i]);
            } else {
                assert forall|j: int| 0 <= j < listed.len() implies measured <= measure.of_spec(
                    #[trigger] listed[j],
                ).nanos by {
                    if j != replaced {
                        assert(listed[j] == before.listed[j]);
                    }
                }
            }
        } else if i < last && measured >= 100_000 {
            assert forall|j: int| 0 <= j < listed.len() implies measured <= measure.of_spec(
                #[trigger] listed[j],
            ).nanos by {
                if j != replaced {
                    assert(listed[j] == before.listed[j]);
                } else {
                    assert(measured <= measure.of_spec(before.listed[replaced]).nanos);
                }
            }
        }
    }
}

proof fn lemma_after_yields(stats: StatsModel, history: Seq<TaskTiming>)
    ensures
        after_yields(stats, history).polls() == after_tasks(
            stats.polls(),
            history,
            Measure::PollTime,
        ),
    decreases history.len(),
{
    if history.len() > 0 {
        lemma_after_yields(stats, history.drop_last());
    }
}

proof fn lemma_after_runtimes(stats: StatsModel, history: Seq<TaskTiming>)
    ensures
        after_runtimes(stats, history).runtimes() == after_tasks(
            stats.runtimes(),
            history,
            Measure::Lifetime,
        ),
    decreases history.len(),
{
    if history.len() > 0 {
        lemma_after_runtimes(stats, history.drop_last());
    }
}

/// No poll that took longer than the listed ones is missing from the list:
/// every poll of a history is listed, or took no longer than any listed poll,
/// or less than the tenth of a millisecond below which no poll is of interest
/// at first.
pub proof fn lemma_longest_polls_are_listed(now: Instant, history: Seq<TaskTiming>, i: int)
    requires
        0 <= i < history.len(),
    ensures
        ({
            let listed = after_yields(StatsModel::fresh(now), history).longest_poll_times;
            ||| listed.contains(history[i])
            ||| forall|j: int|
                0 <= j < listed.len() ==> history[i].poll_duration_spec().nanos <= (
                #[trigger] listed[j]).poll_duration_spec().nanos
            ||| history[i].poll_duration_spec().nanos < 100_000
        }),
{
    assert(StatsModel::fresh(now).polls() =~= LongestModel::fresh(now));
    lemma_after_yields(StatsModel::fresh(now), history);
    lemma_longest_are_listed(now, history, Measure::PollTime, i);
}

/// No task that lived longer than the listed ones is missing from the list:
/// every task of a history is listed, or has lived no longer than any listed
/// task, or less than the tenth of a millisecond below which no task is of
/// interest at first.
pub proof fn lemma_longest_runtimes_are_listed(now: Instant, history: Seq<TaskTiming>, i: int)
    requires
        0 <= i < history.len(),
    ensures
        ({
            let listed = after_runtimes(StatsModel::fresh(now), history).longest_runtimes;
            ||| listed.contains(history[i])
            ||| forall|j: int|
                0 <= j < listed.len() ==> history[i].since_spawn_spec().nanos <= (
                #[trigger] listed[j]).since_spawn_spec().nanos
            ||| history[i].since_spawn_spec().nanos < 100_000
        }),
{
    assert(StatsModel::fresh(now).runtimes() =~= LongestModel::fresh(now));
    lemma_after_runtimes(StatsModel::fresh(now), history);
    lemma_longest_are_listed(now, history, Measure::Lifetime, i);
}

/// A task that measures at least the time to beat at its moment is listed from
/// then on, until it measures no more than any listed task: whatever comes
/// after it, none that measures less keeps it out.
pub proof fn lemma_what_reaches_the_time_to_beat_is_listed(
    longest: LongestModel,
    history: Seq<TaskTiming>,
    measure: Measure,
    i: int,
)
    requires
        longest.listed.len() > 0,
        least(longest.listed, measure).nanos <= longest.to_beat.nanos,
        0 <= i < history.len(),
        after_tasks(longest, history.take(i), measure).to_beat.nanos <= measure.of_spec(
            history[i],
        ).nanos,
    ensures
        ({
            let listed = after_tasks(longest, history, measure).listed;
            ||| listed.contains(history[i])
            ||| forall|j: int|
                0 <= j < listed.len() ==> measure.of_spec(history[i]).nanos <= measure.of_spec(
                    #[trigger] listed[j],
                ).nanos
        }),
    decreases history.len(),
{
    let shorter = history.drop_last();
    let before = after_tasks(longest, shorter, measure);
    let after = after_tasks(longest, history, measure);
    let task = history.last();
    lemma_time_to_beat_is_no_less(longest, shorter, measure);
    lemma_some_is_shortest(before.listed, measure);
    let replaced = first_shortest(before.listed, measure);
    let listed = after.listed;
    let measured = measure.of_spec(history[i]).nanos;
    if i < shorter.len() {
        assert(shorter.take(i) =~= history.take(i));
        lemma_what_reaches_the_time_to_beat_is_listed(longest, shorter, measure, i);
        if measure.of_spec(task).nanos >= before.to_beat.nanos {
            assert(listed[replaced] == task);
            if before.listed.contains(history[i]) {
                let at = choose|at: int|
                    0 <= at < before.listed.len() && before.listed[at] == history[i];
                if at != replaced {
                    assert(listed[at] == history[i]);
                } else {
                    assert forall|j: int| 0 <= j < listed.len() implies measured
                        <= measure.of_spec(#[trigger] listed[j]).nanos by {
                        if j != replaced {
                            assert(listed[j] == before.listed[j]);
                        }
                    }
                }
            } else {
                assert forall|j: int| 0 <= j < listed.len() implies measured <= measure.of_spec(
                    #[trigger] listed[j],
                ).nanos by {
                    if j != replaced {
                        assert(listed[j] == before.listed[j]);
                    } else {
                        assert(measured <= measure.of_spec(before.listed[replaced]).nanos);
                    }
                }
            }
        }
    } else {
        assert(history.take(i) =~= shorter);
        assert(listed[replaced] == task);
    }
}

proof fn lemma_time_to_beat_is_no_less(
    longest: LongestModel,
    history: Seq<TaskTiming>,
    measure: Measure,
)
    requires
        longest.listed.len() > 0,
        least(longest.listed, measure).nanos <= longest.to_beat.nanos,
    ensures
        ({
            let after = after_tasks(longest, history, measure);
            &&& after.listed.len() == longest.listed.len()
            &&& least(after.listed, measure).nanos <= after.to_beat.nanos
        }),
    decreases history.len(),
{
    if history.len() > 0 {
        lemma_time_to_beat_is_no_less(longest, history.drop_last(), measure);
        let before = after_tasks(longest, history.drop_last(), measure);
        lemma_some_is_shortest(before.listed, measure);
    }
}

/// A list holds nothing but what it held at first and the tasks that were noted,
/// and none of them more often.
pub proof fn lemma_nothing_else_is_listed(
    longest: LongestModel,
    history: Seq<TaskTiming>,
    measure: Measure,
    task: TaskTiming,
)
    requires
        longest.listed.len() > 0,
    ensures
        after_tasks(longest, history, measure).listed.len() == longest.listed.len(),
        after_tasks(longest, history, measure).listed.to_multiset().count(task)
            <= longest.listed.to_multiset().count(task) + history.to_multiset().count(task),
    decreases history.len(),
{
    broadcast use vstd::seq_lib::group_to_multiset_ensures;

    if history.len() > 0 {
        let shorter = history.drop_last();
        lemma_nothing_else_is_listed(longest, shorter, measure, task);
        let before = after_tasks(longest, shorter, measure);
        lemma_some_is_shortest(before.listed, measure);
        assert(history =~= shorter.push(history.last()));
    }
}

/// The time to beat is the least measure of the list, from the first task that
/// reached it on; until then it is what it was at first.
pub proof fn lemma_time_to_beat_is_the_least(
    longest: LongestModel,
    history: Seq<TaskTiming>,
    measure: Measure,
)
    requires
        longest.listed.len() > 0,
    ensures
        ({
            let after = after_tasks(longest, history, measure);
            ||| after == longest
            ||| {
                &&& forall|j: int|
                    0 <= j < after.listed.len() ==> after.to_beat.nanos <= measure.of_spec(
                        #[trigger] after.listed[j],
                    ).nanos
                &&& exists|j: int|
                    0 <= j < after.listed.len() && measure.of_spec(#[trigger] after.listed[j])
                        == after.to_beat
            }
        }),
        after_tasks(longest, history, measure).listed.len() == longest.listed.len(),
    decreases history.len(),
{
    if history.len() > 0 {
        lemma_time_to_beat_is_the_least(longest, history.drop_last(), measure);
        let before = after_tasks(longest, history.drop_last(), measure);
        lemma_some_is_shortest(before.listed, measure);
        let after = after_tasks(longest, history, measure);
        lemma_some_is_shortest(after.listed, measure);
        let index = first_shortest(after.listed, measure);
        assert(measure.of_spec(after.listed[index]) == least(after.listed, measure));
    }
}

/// Statistics start with five placeholders in each list, which took no time, and
/// with a tenth of a millisecond to beat. A poll is measured from its start, and
/// a life from when the task was spawned, to the end of the poll.
pub proof fn lemma_statistics_start_with_placeholders(now: Instant, task: TaskTiming)
    ensures
        StatsModel::fresh(now).longest_poll_times.len() == 5,
        StatsModel::fresh(now).longest_runtimes.len() == 5,
        forall|i: int|
            0 <= i < 5 ==> {
                let (a, b) = (
                    #[trigger] StatsModel::fresh(now).longest_poll_times[i],
                    StatsModel::fresh(now).longest_runtimes[i],
                );
                a == b && a.start == now && a.spawned.0 == now && a.end.0 == now
            },
        StatsModel::fresh(now).poll_time_to_beat.nanos == 100_000,
        StatsModel::fresh(now).runtime_to_beat.nanos == 100_000,
        task.start.nanos <= task.end.0.nanos ==> task.start.nanos + Measure::PollTime.of_spec(
            task,
        ).nanos == task.end.0.nanos,
        task.spawned.0.nanos <= task.end.0.nanos ==> task.spawned.0.nanos
            + Measure::Lifetime.of_spec(task).nanos == task.end.0.nanos,
        task.start.nanos > task.end.0.nanos ==> Measure::PollTime.of_spec(task).nanos == 0,
        task.spawned.0.nanos > task.end.0.nanos ==> Measure::Lifetime.of_spec(task).nanos == 0,
        Measure::PollTime.of_spec(task) == task.poll_duration_spec(),
        Measure::Lifetime.of_spec(task) == task.since_spawn_spec(),
{
}

/// A line of a report starts with the text of the duration, which takes at least
/// twenty columns with the blanks behind it, and goes on with where the task was
/// spawned, up to the end of the line.
pub proof fn lemma_a_line_of_a_report(text: Seq<char>, location: Location)
    ensures
        ({
            let line = report_line(text, location);
            let width: int = if text.len() < 20 {
                20
            } else {
                text.len() as int
            };
            &&& line.len() > width
            &&& line.take(text.len() as int) == text
            &&& forall|i: int| text.len() <= i < width ==> #[trigger] line[i] == ' '
            &&& line.skip(width) == " - "@ + location.file@ + ":"@ + decimal_digits(
                location.column as nat,
            ) + "\n"@
        }),
{
    reveal_strlit(" - ");
    let line = report_line(text, location);
    let width: int = if text.len() < 20 {
        20
    } else {
        text.len() as int
    };
    assert(padded(text, 20).len() == width);
    assert(line.take(text.len() as int) =~= text);
    assert forall|i: int| text.len() <= i < width implies #[trigger] line[i] == ' ' by {
        assert(padded(text, 20)[i] == ' ');
    }
    assert(line.skip(width) =~= " - "@ + location.file@ + ":"@ + decimal_digits(
        location.column as nat,
    ) + "\n"@);
}

/// A report lists the five longest polls under one heading, and the five longest
/// lives under another, each on a line of its own, in the sequence of the lists.
pub proof fn lemma_a_report_lists_both(
    stats: StatsModel,
    polls: Seq<Seq<char>>,
    lives: Seq<Seq<char>>,
)
    ensures
        stats.report_text(polls, lives) == "Tasks that blocked the longest before yielding\n"@
            + report_line(polls[0], stats.longest_poll_times[0].location)
            + report_line(polls[1], stats.longest_poll_times[1].location)
            + report_line(polls[2], stats.longest_poll_times[2].location)
            + report_line(polls[3], stats.longest_poll_times[3].location)
            + report_line(polls[4], stats.longest_poll_times[4].location)
            + "Tasks that ran the longest\n"@
            + report_line(lives[0], stats.longest_runtimes[0].location)
            + report_line(lives[1], stats.longest_runtimes[1].location)
            + report_line(lives[2], stats.longest_runtimes[2].location)
            + report_line(lives[3], stats.longest_runtimes[3].location)
            + report_line(lives[4], stats.longest_runtimes[4].location),
        stats.poll_texts().len() == stats.longest_poll_times.len(),
        forall|i: int|
            0 <= i < stats.longest_poll_times.len() ==> #[trigger] stats.poll_texts()[i]
                == text_of(stats.longest_poll_times[i].poll_duration_spec()),
        stats.runtime_texts().len() == stats.longest_runtimes.len(),
        forall|i: int|
            0 <= i < stats.longest_runtimes.len() ==> #[trigger] stats.runtime_texts()[i]
                == text_of(stats.longest_runtimes[i].since_spawn_spec()),
{
    reveal_with_fuel(report_lines, 6);
    assert(stats.report_text(polls, lives)
        =~= "Tasks that blocked the longest before yielding\n"@ + report_line(
        polls[0],
        stats.longest_poll_times[0].location,
    ) + report_line(polls[1], stats.longest_poll_times[1].location) + report_line(
        polls[2],
        stats.longest_poll_times[2].location,
    ) + report_line(polls[3], stats.longest_poll_times[3].location) + report_line(
        polls[4],
        stats.longest_poll_times[4].location,
    ) + "Tasks that ran the longest\n"@ + report_line(
        lives[0],
        stats.longest_runtimes[0].location,
    ) + report_line(lives[1], stats.longest_runtimes[1].location) + report_line(
        lives[2],
        stats.longest_runtimes[2].location,
    ) + report_line(lives[3], stats.longest_runtimes[3].location) + report_line(
        lives[4],
        stats.longest_runtimes[4].location,
    ));
}

/// The text of a duration is that of its whole seconds and of the nanoseconds
/// that are left.
pub proof fn lemma_text_of_seconds_and_nanoseconds(
    duration: Duration,
    secs: u64,
    subsec_nanos: u32,
)
    requires
        subsec_nanos < 1_000_000_000,
        secs * 1_000_000_000 + subsec_nanos == duration.nanos,
    ensures
        text_of(duration) == duration_text(secs, subsec_nanos),
        countable(duration),
{
}

} // verus!
