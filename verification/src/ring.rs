//! Bounded records of what happened last, and cursors into them.

use std::collections::VecDeque;
use vstd::prelude::*;

verus! {

/// How many bytes a record may take.
pub const RECORD_BYTES: usize = 16_777_216;

/// How many entries of a size a record holds. (Entries of no size at all count
/// as one byte.)
pub open spec fn capacity_for(size: nat) -> nat {
    if size == 0 {
        RECORD_BYTES as nat
    } else {
        RECORD_BYTES as nat / size
    }
}

/// How many entries of type `T` a record holds.
pub fn entry_capacity<T>() -> (r: usize)
    ensures
        r == capacity_for(vstd::layout::size_of::<T>()),
{
    let size: usize = core::mem::size_of::<T>();
    if size == 0 {
        RECORD_BYTES
    } else {
        RECORD_BYTES / size
    }
}

/// The kept entries after one more: where there is no room for it, the oldest
/// one makes way.
pub open spec fn pushed<T>(kept: Seq<T>, entry: T, capacity: nat) -> Seq<T> {
    if kept.len() >= capacity && kept.len() > 0 {
        kept.drop_first().push(entry)
    } else {
        kept.push(entry)
    }
}

/// The index of the first kept entry that a cursor has not passed, where
/// `total` entries were recorded and `len` of them are kept.
pub open spec fn unseen_start(len: nat, total: u64, cursor: u64) -> nat {
    let start: int = if total < len {
        0
    } else {
        total - len
    };
    if cursor <= start {
        0
    } else if cursor - start >= len {
        len
    } else {
        (cursor - start) as nat
    }
}

/// The kept entries that a cursor has not passed: all of them if the cursor
/// fell behind.
pub open spec fn unseen<T>(kept: Seq<T>, total: u64, cursor: u64) -> Seq<T> {
    kept.skip(unseen_start(kept.len(), total, cursor) as int)
}

/// The index of the first kept entry that a cursor has not passed.
pub fn first_unseen(len: usize, total: u64, cursor: u64) -> (r: usize)
    ensures
        r == unseen_start(len as nat, total, cursor),
        r <= len,
{
    let start: u64 = total.saturating_sub(len as u64);
    if cursor <= start {
        0
    } else if cursor - start >= len as u64 {
        len
    } else {
        (cursor - start) as usize
    }
}

/// The number after `count`, which starts over at 0.
pub open spec fn count_after(count: u64) -> u64 {
    if count == u64::MAX {
        0
    } else {
        (count + 1) as u64
    }
}

/// The number after `count`, which starts over at 0.
pub fn next_count(count: u64) -> (r: u64)
    ensures
        r == count_after(count),
{
    count.wrapping_add(1)
}

/// How far a reader of a record has come.
#[derive(Clone, Copy, Debug, PartialEq, Eq, Structural)]
pub struct Cursor {
    /// How often the record had been cleared.
    pub clears: u64,
    /// How many entries had been recorded since.
    pub passed: u64,
}

impl Cursor {
    pub open spec fn position_spec(self, clears: u64) -> u64 {
        if self.clears == clears {
            self.passed
        } else {
            0
        }
    }

    /// How many entries were passed of a record that has been cleared so
    /// often: none if it was cleared since.
    pub fn position(&self, clears: u64) -> (r: u64)
        ensures
            r == self.position_spec(clears),
    {
        if self.clears == clears {
            self.passed
        } else {
            0
        }
    }
}

/// What a [`TimingRing`] is.
#[verifier::ext_equal]
pub struct RingModel<T> {
    /// The entries that are kept, the oldest first.
    pub kept: Seq<T>,
    /// How many entries were recorded since the record was cleared.
    pub total: u64,
    /// How often the record was cleared.
    pub clears: u64,
}

impl<T> RingModel<T> {
    /// A record of nothing.
    pub open spec fn empty() -> Self {
        RingModel { kept: Seq::empty(), total: 0, clears: 0 }
    }

    /// One more entry was recorded.
    pub open spec fn push(self, entry: T, capacity: nat) -> Self {
        RingModel {
            kept: pushed(self.kept, entry, capacity),
            total: (self.total + 1) as u64,
            ..self
        }
    }

    /// The record was cleared.
    pub open spec fn cleared(self) -> Self {
        RingModel { kept: Seq::empty(), total: 0, clears: count_after(self.clears) }
    }

    /// One more entry was recorded, if recording is enabled.
    pub open spec fn push_if(self, enabled: bool, entry: T, capacity: nat) -> Self {
        if enabled {
            self.push(entry, capacity)
        } else {
            self
        }
    }

    /// Recording was switched from `was` to `on`: the record is cleared when it
    /// is switched off.
    pub open spec fn switched(self, was: bool, on: bool) -> Self {
        if was && !on {
            self.cleared()
        } else {
            self
        }
    }

    /// The end of the record.
    pub open spec fn cursor(self) -> Cursor {
        Cursor { clears: self.clears, passed: self.total }
    }

    /// The kept entries that a cursor has not passed: all of them if the
    /// record was cleared since, or the cursor fell behind.
    pub open spec fn unseen(self, cursor: Cursor) -> Seq<T> {
        unseen(self.kept, self.total, cursor.position_spec(self.clears))
    }
}

/// A bounded record that keeps the last entries.
pub struct TimingRing<T> {
    timings: VecDeque<T>,
    total_pushed: u64,
    clears: u64,
}

impl<T> View for TimingRing<T> {
    type V = RingModel<T>;

    closed spec fn view(&self) -> RingModel<T> {
        RingModel { kept: self.timings@, total: self.total_pushed, clears: self.clears }
    }
}

impl<T: Copy> TimingRing<T> {
    /// A record of nothing.
    pub fn new() -> (r: Self)
        ensures
            r@ == RingModel::<T>::empty(),
    {
        TimingRing { timings: VecDeque::new(), total_pushed: 0, clears: 0 }
    }

    /// Forgets every entry, and how many there were.
    pub fn clear(&mut self)
        ensures
            final(self)@ == old(self)@.cleared(),
    {
        self.timings = VecDeque::new();
        self.total_pushed = 0;
        self.clears = next_count(self.clears);
    }

    /// How many entries were recorded since the record was cleared.
    pub fn total_pushed(&self) -> (r: u64)
        ensures
            r == self@.total,
    {
        self.total_pushed
    }

    /// The end of the record.
    pub fn cursor(&self) -> (r: Cursor)
        ensures
            r == self@.cursor(),
    {
        Cursor { clears: self.clears, passed: self.total_pushed }
    }

    /// Records an entry.
    pub fn push(&mut self, entry: T, capacity: usize)
        requires
            old(self)@.total < u64::MAX,
        ensures
            final(self)@ == old(self)@.push(entry, capacity as nat),
    {
        push_bounded(&mut self.timings, entry, capacity);
        self.total_pushed = self.total_pushed + 1;
    }

    /// The kept entries that a cursor has not passed.
    pub fn unseen_since(&self, cursor: Cursor) -> (r: Vec<T>)
        ensures
            r@ == self@.unseen(cursor),
    {
        let start: usize = first_unseen(
            self.timings.len(),
            self.total_pushed,
            cursor.position(self.clears),
        );
        let mut entries: Vec<T> = Vec::new();
        let mut i: usize = start;
        while i < self.timings.len()
            invariant
                start <= i <= self.timings@.len(),
                entries@ == self.timings@.subrange(start as int, i as int),
            decreases self.timings@.len() - i,
        {
            entries.push(self.timings[i]);
            i = i + 1;
            assert(entries@ =~= self.timings@.subrange(start as int, i as int));
        }
        assert(entries@ =~= self.timings@.skip(start as int));
        entries
    }
}

/// Appends an entry; where there is no room for it, the oldest one makes way.
pub fn push_bounded<T>(kept: &mut VecDeque<T>, entry: T, capacity: usize)
    ensures
        final(kept)@ == pushed(old(kept)@, entry, capacity as nat),
{
    if kept.len() >= capacity {
        let _ = kept.pop_front();
        assert(old(kept)@.len() > 0 ==> kept@ =~= old(kept)@.drop_first());
    }
    kept.push_back(entry);
}

/// The last entries of a history that a record keeps.
pub open spec fn tail<T>(history: Seq<T>, capacity: nat) -> Seq<T> {
    let room = if capacity == 0 {
        1
    } else {
        capacity
    };
    if history.len() <= room {
        history
    } else {
        history.skip(history.len() - room)
    }
}

/// The record after the entries of a history.
pub open spec fn recorded<T>(history: Seq<T>, capacity: nat) -> RingModel<T>
    decreases history.len(),
{
    if history.len() == 0 {
        RingModel::empty()
    } else {
        recorded(history.drop_last(), capacity).push(history.last(), capacity)
    }
}

/// A record keeps the last entries of everything that was recorded, and no
/// others, and it knows how many there were.
pub proof fn lemma_record_keeps_the_tail<T>(history: Seq<T>, capacity: nat)
    requires
        history.len() <= u64::MAX,
    ensures
        recorded(history, capacity).kept == tail(history, capacity),
        recorded(history, capacity).total == history.len(),
        recorded(history, capacity).clears == 0,
    decreases history.len(),
{
    if history.len() > 0 {
        let before = history.drop_last();
        lemma_record_keeps_the_tail(before, capacity);
        assert(pushed(tail(before, capacity), history.last(), capacity) =~= tail(
            history,
            capacity,
        ));
    }
}

/// What a cursor has not passed is what was recorded after it, without what
/// was evicted.
pub proof fn lemma_unseen_is_what_came_after<T>(history: Seq<T>, cursor: u64, capacity: nat)
    requires
        history.len() <= u64::MAX,
        cursor <= history.len(),
    ensures
        ({
            let kept = tail(history, capacity);
            let evicted = history.len() - kept.len();
            unseen(kept, history.len() as u64, cursor) == history.skip(
                if cursor <= evicted {
                    evicted
                } else {
                    cursor as int
                },
            )
        }),
{
    let kept = tail(history, capacity);
    let evicted = history.len() - kept.len();
    let from = if cursor <= evicted {
        evicted
    } else {
        cursor as int
    };
    assert(unseen(kept, history.len() as u64, cursor) =~= history.skip(from));
}

/// What happens to a record.
pub enum RingEvent<T> {
    Push(T),
    Clear,
}

/// The record after some events.
pub open spec fn after_events<T>(
    ring: RingModel<T>,
    events: Seq<RingEvent<T>>,
    capacity: nat,
) -> RingModel<T>
    decreases events.len(),
{
    if events.len() == 0 {
        ring
    } else {
        let before = after_events(ring, events.drop_last(), capacity);
        match events.last() {
            RingEvent::Push(entry) => before.push(entry, capacity),
            RingEvent::Clear => before.cleared(),
        }
    }
}

/// What was recorded in the course of some events and not cleared again.
pub open spec fn recorded_in<T>(events: Seq<RingEvent<T>>) -> Seq<T>
    decreases events.len(),
{
    if events.len() == 0 {
        Seq::empty()
    } else {
        match events.last() {
            RingEvent::Push(entry) => recorded_in(events.drop_last()).push(entry),
            RingEvent::Clear => Seq::empty(),
        }
    }
}

/// How many of some events clear the record.
pub open spec fn clears_in<T>(events: Seq<RingEvent<T>>) -> nat
    decreases events.len(),
{
    if events.len() == 0 {
        0
    } else {
        clears_in(events.drop_last()) + (if events.last() is Clear {
            1nat
        } else {
            0
        })
    }
}

proof fn lemma_after_events<T>(
    history: Seq<T>,
    ring: RingModel<T>,
    events: Seq<RingEvent<T>>,
    capacity: nat,
)
    requires
        ring.kept == tail(history, capacity),
        ring.total == history.len(),
        history.len() + events.len() <= u64::MAX,
    ensures
        ({
            let after = after_events(ring, events, capacity);
            let more = recorded_in(events);
            let clears = clears_in(events);
            &&& more.len() <= events.len()
            &&& clears <= events.len()
            &&& after.clears == (if ring.clears + clears <= u64::MAX {
                ring.clears + clears
            } else {
                ring.clears + clears - u64::MAX - 1
            })
            &&& clears == 0 ==> after.kept == tail(history + more, capacity) && after.total
                == history.len() + more.len()
            &&& clears > 0 ==> after.kept == tail(more, capacity) && after.total == more.len()
        }),
    decreases events.len(),
{
    if events.len() > 0 {
        let before = events.drop_last();
        lemma_after_events(history, ring, before, capacity);
        let more = recorded_in(before);
        if let RingEvent::Push(entry) = events.last() {
            let all = if clears_in(before) == 0 {
                history + more
            } else {
                more
            };
            assert(pushed(tail(all, capacity), entry, capacity) =~= tail(
                all.push(entry),
                capacity,
            ));
            assert(all.push(entry) =~= (if clears_in(before) == 0 {
                history + more.push(entry)
            } else {
                more.push(entry)
            }));
        }
    } else {
        assert(history + Seq::<T>::empty() =~= history);
    }
}

/// Whatever happens to a record between two looks, the second look sees what
/// was recorded since the first and is still there: everything but what was
/// cleared again and what was evicted. It sees nothing twice, and nothing if
/// nothing was recorded.
pub proof fn lemma_a_look_sees_what_came_since<T>(
    history: Seq<T>,
    ring: RingModel<T>,
    events: Seq<RingEvent<T>>,
    capacity: nat,
)
    requires
        ring.kept == tail(history, capacity),
        ring.total == history.len(),
        history.len() + events.len() <= u64::MAX,
    ensures
        after_events(ring, events, capacity).unseen(ring.cursor()) == tail(
            recorded_in(events),
            capacity,
        ),
{
    lemma_after_events(history, ring, events, capacity);
    let after = after_events(ring, events, capacity);
    let more = recorded_in(events);
    if clears_in(events) == 0 {
        let all = history + more;
        lemma_unseen_is_what_came_after(all, history.len() as u64, capacity);
        assert(after.unseen(ring.cursor()) =~= tail(more, capacity));
    } else {
        assert(after.clears != ring.clears);
        assert(after.unseen(ring.cursor()) =~= tail(more, capacity));
    }
}

/// A record that nothing happened to yet is such a record.
pub proof fn lemma_a_record_starts_empty<T>(capacity: nat)
    ensures
        RingModel::<T>::empty().kept == tail(Seq::<T>::empty(), capacity),
        RingModel::<T>::empty().total == Seq::<T>::empty().len(),
{
}

/// A second look sees what was recorded since the first, each entry once, as
/// long as the record has room for all of it and is not cleared.
pub proof fn lemma_each_entry_is_seen_once<T>(history: Seq<T>, more: Seq<T>, capacity: nat)
    requires
        history.len() + more.len() <= u64::MAX,
        more.len() <= capacity,
    ensures
        recorded(history + more, capacity).unseen(recorded(history, capacity).cursor()) == more,
{
    let all = history + more;
    lemma_record_keeps_the_tail(history, capacity);
    lemma_record_keeps_the_tail(all, capacity);
    lemma_unseen_is_what_came_after(all, history.len() as u64, capacity);
    assert(all.skip(history.len() as int) =~= more);
}

/// As many entries as a record holds take no more than its bytes, and one more
/// would.
pub proof fn lemma_capacity_is_used_up(size: nat)
    requires
        size > 0,
    ensures
        capacity_for(size) * size <= RECORD_BYTES,
        RECORD_BYTES < (capacity_for(size) + 1) * size,
        RECORD_BYTES == 16 * 1024 * 1024,
{
    let bytes = RECORD_BYTES as nat;
    vstd::arithmetic::div_mod::lemma_fundamental_div_mod(bytes as int, size as int);
    vstd::arithmetic::div_mod::lemma_mod_bound(bytes as int, size as int);
    let count = bytes / size;
    assert(count * size <= bytes && bytes < (count + 1) * size) by (nonlinear_arith)
        requires
            bytes == size * count + bytes % size,
            0 <= bytes % size < size,
    ;
}

/// A cursor at the end of a record, or beyond it, has passed everything; one at
/// its start has passed nothing; and what a cursor has not passed is always the
/// last part of what is kept.
pub proof fn lemma_what_a_cursor_has_passed<T>(ring: RingModel<T>, cursor: Cursor)
    requires
        ring.kept.len() <= ring.total,
    ensures
        cursor.clears == ring.clears && cursor.passed >= ring.total ==> ring.unseen(cursor).len()
            == 0,
        cursor.clears != ring.clears || cursor.passed == 0 ==> ring.unseen(cursor) == ring.kept,
        ring.unseen(cursor).len() <= ring.kept.len(),
        ring.unseen(cursor) == ring.kept.skip(ring.kept.len() - ring.unseen(cursor).len()),
        cursor.clears == ring.clears && ring.total - ring.kept.len() <= cursor.passed <= ring.total
            ==> ring.unseen(cursor).len() == ring.total - cursor.passed,
        cursor.clears == ring.clears && cursor.passed <= ring.total - ring.kept.len()
            ==> ring.unseen(cursor) == ring.kept,
{
    assert(ring.kept.skip(0) =~= ring.kept);
}

/// While recording is enabled an entry that is recorded is the last one that is
/// kept, and is what a cursor from before it has not passed; while it is not, an
/// entry leaves the record as it is. Switching off leaves nothing that was
/// recorded, and nothing else does that.
pub proof fn lemma_recorded_while_enabled<T>(
    ring: RingModel<T>,
    entry: T,
    capacity: nat,
    was: bool,
    on: bool,
)
    requires
        ring.kept.len() <= ring.total,
        ring.total < u64::MAX,
        capacity > 0,
    ensures
        ring.push_if(false, entry, capacity) == ring,
        ring.push_if(true, entry, capacity).kept.last() == entry,
        ring.push_if(true, entry, capacity).total == ring.total + 1,
        ring.push_if(true, entry, capacity).clears == ring.clears,
        ring.push_if(true, entry, capacity).unseen(ring.cursor()) == seq![entry],
        ring.kept.len() < capacity ==> ring.push_if(true, entry, capacity).kept == ring.kept.push(
            entry,
        ),
        was && !on ==> ring.switched(was, on).kept.len() == 0 && ring.switched(was, on).total == 0
            && ring.switched(was, on).clears != ring.clears,
        on || !was ==> ring.switched(was, on) == ring,
{
    let after = ring.push_if(true, entry, capacity);
    assert(after.unseen(ring.cursor()) =~= seq![entry]);
}

} // verus!
