//! The timer service: payloads scheduled per key against logical time.
//!
//! A timer is a key, a trigger time and a payload. The service keeps the
//! timers ordered by trigger time and, within one time, by key; that is the
//! order in which they fire. A second timer for a key and a time that are
//! already taken replaces the payload of the first. The service has one
//! logical clock, which only `advance_to` moves.
//!
//! The clock and the timers are stored as one value under the service's
//! handle when the service is persisted.

use crate::backend::{Backend, Handle};
use crate::codec::{
    decode_frames, decode_rows, encode_frames, frames_decoding, frames_encoding,
    lemma_frames_round_trip, list_decoding, max_frame_len, views, IndexValue,
};
use crate::error::{ArconResult, BackendError, StateError, StateResult, TimerError};
use crate::index::appender::{lemma_rows_decode, rows_hold};
use crate::index::{logical, IndexOps, Store, Write};
use crate::table::ImmutableTable;
use vstd::prelude::*;

verus! {

/// A timer that has fired.
#[derive(Debug)]
pub struct TimerEvent<T> {
    pub key: u64,
    pub time: u64,
    pub payload: T,
}

/// Whether the time and key `a` come before the time and key `b`: an
/// earlier time first, and within one time the smaller key.
pub open spec fn precedes(a: (u64, u64), b: (u64, u64)) -> bool {
    a.0 < b.0 || (a.0 == b.0 && a.1 < b.1)
}

/// The time and key of a scheduled timer.
pub open spec fn slot_of<T>(entry: (u64, (u64, T))) -> (u64, u64) {
    (entry.0, entry.1.0)
}

/// Whether the timers stand in firing order, with no time and key twice.
pub open spec fn in_order<T>(entries: Seq<(u64, (u64, T))>) -> bool {
    forall|i: int, j: int|
        0 <= i < j < entries.len() ==> precedes(
            slot_of(#[trigger] entries[i]),
            slot_of(#[trigger] entries[j]),
        )
}

/// Whether `after` is `before` with `entry` scheduled: in the place of the
/// timer with the same time and key where there is one, else at its place in
/// the firing order.
pub open spec fn scheduled_into<T>(
    before: Seq<(u64, (u64, T))>,
    entry: (u64, (u64, T)),
    after: Seq<(u64, (u64, T))>,
) -> bool {
    exists|i: int| #[trigger] placed_at(before, entry, after, i)
}

/// Whether `after` is `before` with `entry` scheduled at place `i`.
pub open spec fn placed_at<T>(
    before: Seq<(u64, (u64, T))>,
    entry: (u64, (u64, T)),
    after: Seq<(u64, (u64, T))>,
    i: int,
) -> bool {
    &&& 0 <= i <= before.len()
    &&& forall|j: int| 0 <= j < i ==> precedes(slot_of(#[trigger] before[j]), slot_of(entry))
    &&& if i < before.len() && slot_of(before[i]) == slot_of(entry) {
        after == before.update(i, entry)
    } else {
        (i < before.len() ==> precedes(slot_of(entry), slot_of(before[i]))) && after
            == before.insert(i, entry)
    }
}

/// The number of timers that are due at `time`, given that they stand in
/// firing order: those before place `n` are due and the others are not.
pub open spec fn due_until<T>(entries: Seq<(u64, (u64, T))>, time: u64, n: int) -> bool {
    &&& 0 <= n <= entries.len()
    &&& forall|j: int| 0 <= j < n ==> (#[trigger] entries[j]).0 <= time
    &&& forall|j: int| n <= j < entries.len() ==> (#[trigger] entries[j]).0 > time
}

/// The events that stand for fired timers.
pub open spec fn events_of<T>(events: Seq<TimerEvent<T>>) -> Seq<(u64, (u64, T))> {
    Seq::new(events.len(), |i: int| (events[i].time, (events[i].key, events[i].payload)))
}

/// Scheduling into timers that stand in firing order leaves them in firing
/// order.
pub proof fn lemma_scheduled_in_order<T>(
    before: Seq<(u64, (u64, T))>,
    entry: (u64, (u64, T)),
    after: Seq<(u64, (u64, T))>,
)
    requires
        in_order(before),
        scheduled_into(before, entry, after),
    ensures
        in_order(after),
{
    let i = choose|i: int| #[trigger] placed_at(before, entry, after, i);
    if i < before.len() && slot_of(before[i]) == slot_of(entry) {
        assert forall|a: int, b: int| 0 <= a < b < after.len() implies precedes(
            slot_of(#[trigger] after[a]),
            slot_of(#[trigger] after[b]),
        ) by {
            assert(slot_of(after[a]) == slot_of(before[a]));
            assert(slot_of(after[b]) == slot_of(before[b]));
        }
    } else {
        assert forall|a: int, b: int| 0 <= a < b < after.len() implies precedes(
            slot_of(#[trigger] after[a]),
            slot_of(#[trigger] after[b]),
        ) by {
            let a0 = if a < i { a } else { a - 1 };
            let b0 = if b < i { b } else { b - 1 };
            if a == i {
                assert(after[b] == before[b0]);
                if b0 > i {
                    assert(precedes(slot_of(before[i]), slot_of(before[b0])));
                }
            } else if b == i {
                assert(after[a] == before[a0]);
            } else {
                assert(after[a] == before[a0]);
                assert(after[b] == before[b0]);
            }
        }
    }
}

/// The bytes of a timer service: two frames, the clock and the list of
/// timers.
pub open spec fn timer_encoding(time: u64, rows: Seq<Seq<u8>>) -> Seq<u8> {
    frames_encoding(seq![time.encoding(), frames_encoding(rows)])
}

/// The clock and the timers that `bytes` hold; `None` where the bytes are not
/// those of a timer service or the timers do not stand in firing order.
pub open spec fn timer_decoding<T: IndexValue>(bytes: Seq<u8>) -> Option<
    (u64, Seq<(u64, (u64, T))>),
> {
    match frames_decoding(bytes) {
        Some(parts) => if parts.len() == 2 {
            match (u64::decoding(parts[0]), list_decoding::<(u64, (u64, T))>(parts[1])) {
                (Some(time), Some(entries)) => if in_order(entries) {
                    Some((time, entries))
                } else {
                    None
                },
                _ => None,
            }
        } else {
            None
        },
        None => None,
    }
}

/// What reading a timer service under `handle` gives: a clock at zero and no
/// timers where nothing is stored, the stored clock and timers where the
/// bytes decode, and an encoding error where they do not.
pub open spec fn read_timer<T: IndexValue>(store: Store, handle: Seq<u8>) -> StateResult<
    (u64, Seq<(u64, (u64, T))>),
> {
    if store.contains_key((handle, Seq::empty())) {
        match timer_decoding::<T>(store[(handle, Seq::empty())]) {
            Some(state) => Ok(state),
            None => Err(StateError::Backend(BackendError::Encoding)),
        }
    } else {
        Ok((0u64, Seq::empty()))
    }
}

/// The timer service.
pub struct Timer<T: IndexValue> {
    handle: Handle,
    time: u64,
    entries: Vec<(u64, (u64, T))>,
    rows: Vec<Vec<u8>>,
    dirty: bool,
}

impl<T: IndexValue> Timer<T> {
    /// The current logical time.
    pub closed spec fn spec_time(&self) -> u64 {
        self.time
    }

    /// The scheduled timers, in firing order: time, then key and payload.
    pub closed spec fn scheduled(&self) -> Seq<(u64, (u64, T))> {
        self.entries@
    }

    /// The bytes that the service is stored as.
    pub closed spec fn stored_bytes(&self) -> Seq<u8> {
        timer_encoding(self.time, views(self.rows@))
    }

    /// The stored bytes of a service decode to its clock and timers.
    proof fn lemma_stored(&self)
        requires
            self.wf(),
            frames_encoding(views(self.rows@)).len() <= max_frame_len(),
        ensures
            timer_decoding::<T>(self.stored_bytes()) == Some((self.time, self.entries@)),
    {
        let inner = frames_encoding(views(self.rows@));
        lemma_rows_decode(self.rows@, self.entries@);
        let parts = seq![self.time.encoding(), inner];
        vstd::bytes::lemma_auto_spec_u64_to_from_le_bytes();
        assert forall|i: int| 0 <= i < parts.len() implies (#[trigger] parts[i]).len()
            <= max_frame_len() by {
        }
        lemma_frames_round_trip(parts);
        u64::lemma_round_trip(self.time);
    }

    /// A service with the clock at zero and no timers, to be stored under the
    /// handle `name`.
    pub fn new(name: &str) -> (t: Self)
        ensures
            t.wf(),
            t.spec_time() == 0,
            t.scheduled() == Seq::<(u64, (u64, T))>::empty(),
            t.handle_name() == vstd::utf8::encode_utf8(name@),
            t.pending() is Some,
    {
        Timer {
            handle: Handle::new(name),
            time: 0,
            entries: Vec::new(),
            rows: Vec::new(),
            dirty: true,
        }
    }

    /// The service that is stored in `backend` under the handle `name`. It
    /// fails where the stored bytes do not decode or the stored timers do not
    /// stand in firing order: timers are not dropped in silence.
    pub fn restore(name: &str, backend: &Backend) -> (r: StateResult<Self>)
        requires
            backend.wf(),
        ensures
            match r {
                Ok(t) => {
                    &&& t.wf()
                    &&& t.handle_name() == vstd::utf8::encode_utf8(name@)
                    &&& t.pending() is None
                    &&& read_timer::<T>(backend@, vstd::utf8::encode_utf8(name@)) == Ok::<
                        (u64, Seq<(u64, (u64, T))>),
                        StateError,
                    >((t.spec_time(), t.scheduled()))
                },
                Err(e) => read_timer::<T>(backend@, vstd::utf8::encode_utf8(name@)) == Err::<
                    (u64, Seq<(u64, (u64, T))>),
                    StateError,
                >(e),
            },
    {
        let handle = Handle::new(name);
        let key: Vec<u8> = Vec::new();
        assert(key@ =~= Seq::<u8>::empty());
        let bytes = match backend.get(&handle, key.as_slice()) {
            None => {
                let t = Timer { handle, time: 0, entries: Vec::new(), rows: Vec::new(), dirty: false };
                assert(t.entries@ =~= Seq::<(u64, (u64, T))>::empty());
                return Ok(t);
            },
            Some(bytes) => bytes,
        };
        let parts = match decode_frames(bytes.as_slice()) {
            None => {
                return Err(StateError::Backend(BackendError::Encoding));
            },
            Some(parts) => parts,
        };
        if parts.len() != 2 {
            return Err(StateError::Backend(BackendError::Encoding));
        }
        assert(views(parts@)[0] == parts@[0]@ && views(parts@)[1] == parts@[1]@);
        let time = match u64::decode(parts[0].as_slice()) {
            None => {
                return Err(StateError::Backend(BackendError::Encoding));
            },
            Some(time) => time,
        };
        let rows = match decode_frames(parts[1].as_slice()) {
            None => {
                return Err(StateError::Backend(BackendError::Encoding));
            },
            Some(rows) => rows,
        };
        let entries = match decode_rows::<(u64, (u64, T))>(&rows) {
            None => {
                return Err(StateError::Backend(BackendError::Encoding));
            },
            Some(entries) => entries,
        };
        let mut i: usize = 1;
        while i < entries.len()
            invariant
                1 <= i,
                i <= entries@.len() || entries@.len() == 0,
                forall|a: int| 0 <= a < i - 1 ==> #[trigger] steps_up(entries@, a),
                timer_decoding::<T>(bytes@) == if in_order(entries@) {
                    Some((time, entries@))
                } else {
                    None
                },
                handle@ == vstd::utf8::encode_utf8(name@),
                backend@.contains_key((handle@, Seq::<u8>::empty())),
                backend@[(handle@, Seq::<u8>::empty())] == bytes@,
            decreases entries@.len() - i,
        {
            let a = &entries[i - 1];
            let b = &entries[i];
            let ok = a.0 < b.0 || (a.0 == b.0 && a.1.0 < b.1.0);
            if !ok {
                assert(!precedes(slot_of(entries@[i - 1]), slot_of(entries@[i as int])));
                return Err(StateError::Backend(BackendError::Encoding));
            }
            assert(steps_up(entries@, i - 1));
            i += 1;
        }
        proof {
            lemma_chain_in_order(entries@);
            assert forall|j: int| 0 <= j < rows@.len() implies <(u64, (u64, T)) as IndexValue>::decoding(
                (#[trigger] rows@[j])@,
            ) == Some(entries@[j]) by {
                assert(views(rows@)[j] == rows@[j]@);
            }
        }
        Ok(Timer { handle, time, entries, rows, dirty: false })
    }

    /// The current logical time.
    pub fn current_time(&self) -> (t: u64)
        ensures
            t == self.spec_time(),
    {
        self.time
    }

    /// The number of scheduled timers.
    pub fn len(&self) -> (n: usize)
        ensures
            n == self.scheduled().len(),
    {
        self.entries.len()
    }

    /// Schedules `payload` for `key` at `time`. Where `time` is not after the
    /// current logical time, nothing is scheduled and the error says so. A
    /// timer that is already scheduled for `key` at `time` gets the new
    /// payload.
    pub fn schedule_at(&mut self, key: u64, time: u64, payload: T) -> (r: Result<(), TimerError>)
        requires
            old(self).wf(),
        ensures
            final(self).wf(),
            final(self).handle_name() == old(self).handle_name(),
            final(self).spec_time() == old(self).spec_time(),
            if time <= old(self).spec_time() {
                &&& r == Err::<(), TimerError>(
                    TimerError::Expired {
                        current_time: old(self).spec_time(),
                        scheduled_time: time,
                    },
                )
                &&& final(self).scheduled() == old(self).scheduled()
                &&& final(self).pending() == old(self).pending()
            } else {
                &&& r is Ok
                &&& scheduled_into(old(self).scheduled(), (time, (key, payload)), final(self).scheduled())
                &&& final(self).pending() is Some
            },
    {
        if time <= self.time {
            return Err(TimerError::Expired { current_time: self.time, scheduled_time: time });
        }
        let entry = (time, (key, payload));
        let bytes = entry.encode();
        proof {
            assert(bytes.len() <= usize::MAX);
            <(u64, (u64, T)) as IndexValue>::lemma_round_trip(entry);
        }
        let mut i: usize = 0;
        while i < self.entries.len() && (self.entries[i].0 < time || (self.entries[i].0 == time
            && self.entries[i].1.0 < key))
            invariant
                i <= self.entries@.len(),
                forall|j: int|
                    0 <= j < i ==> precedes(slot_of(#[trigger] self.entries@[j]), (time, key)),
            decreases self.entries@.len() - i,
        {
            i += 1;
        }
        let ghost before = self.entries@;
        if i < self.entries.len() && self.entries[i].0 == time && self.entries[i].1.0 == key {
            self.entries[i] = entry;
            self.rows[i] = bytes;
        } else {
            self.entries.insert(i, entry);
            self.rows.insert(i, bytes);
        }
        self.dirty = true;
        proof {
            assert(placed_at(before, entry, self.entries@, i as int));
            lemma_scheduled_in_order(before, entry, self.entries@);
        }
        Ok(())
    }

    /// Moves the clock to `time`, where that is later than the current time,
    /// and fires the timers that are due: those whose trigger time is not
    /// after `time`. They come back in firing order and are no longer
    /// scheduled.
    pub fn advance_to(&mut self, time: u64) -> (events: Vec<TimerEvent<T>>)
        requires
            old(self).wf(),
        ensures
            final(self).wf(),
            final(self).handle_name() == old(self).handle_name(),
            final(self).spec_time() == if time > old(self).spec_time() {
                time
            } else {
                old(self).spec_time()
            },
            due_until(old(self).scheduled(), time, events@.len() as int),
            events_of(events@) == old(self).scheduled().subrange(0, events@.len() as int),
            final(self).scheduled() == old(self).scheduled().subrange(
                events@.len() as int,
                old(self).scheduled().len() as int,
            ),
            in_order(events_of(events@)),
            final(self).pending() is Some,
    {
        let mut n: usize = 0;
        while n < self.entries.len() && self.entries[n].0 <= time
            invariant
                n <= self.entries@.len(),
                forall|j: int| 0 <= j < n ==> (#[trigger] self.entries@[j]).0 <= time,
            decreases self.entries@.len() - n,
        {
            n += 1;
        }
        let ghost before = self.entries@;
        let ghost before_rows = self.rows@;
        proof {
            assert forall|j: int| n <= j < before.len() implies (#[trigger] before[j]).0 > time by {
                if j > n {
                    assert(precedes(slot_of(before[n as int]), slot_of(before[j])));
                }
            }
        }
        let mut rest = self.entries.split_off(n);
        let mut rest_rows = self.rows.split_off(n);
        core::mem::swap(&mut self.entries, &mut rest);
        core::mem::swap(&mut self.rows, &mut rest_rows);
        let fired = rest;
        if time > self.time {
            self.time = time;
        }
        self.dirty = true;
        let mut events: Vec<TimerEvent<T>> = Vec::new();
        let mut i: usize = 0;
        while i < fired.len()
            invariant
                i <= fired@.len(),
                events@.len() == i,
                forall|j: int|
                    0 <= j < i ==> (#[trigger] events@[j]).time == fired@[j].0 && events@[j].key
                        == fired@[j].1.0 && events@[j].payload == fired@[j].1.1,
            decreases fired@.len() - i,
        {
            let e = &fired[i];
            events.push(TimerEvent { key: e.1.0, time: e.0, payload: e.1.1.duplicate() });
            i += 1;
        }
        proof {
            assert(events_of(events@) =~= fired@);
            assert(fired@ == before.subrange(0, n as int));
            assert forall|a: int, b: int| 0 <= a < b < fired@.len() implies precedes(
                slot_of(#[trigger] fired@[a]),
                slot_of(#[trigger] fired@[b]),
            ) by {
                assert(fired@[a] == before[a]);
                assert(fired@[b] == before[b]);
            }
            assert forall|a: int, b: int| 0 <= a < b < self.entries@.len() implies precedes(
                slot_of(#[trigger] self.entries@[a]),
                slot_of(#[trigger] self.entries@[b]),
            ) by {
                assert(self.entries@[a] == before[a + n]);
                assert(self.entries@[b] == before[b + n]);
            }
            assert forall|j: int| 0 <= j < self.rows@.len() implies <(
                u64,
                (u64, T),
            ) as IndexValue>::decoding((#[trigger] self.rows@[j])@) == Some(self.entries@[j]) by {
                assert(self.rows@[j] == before_rows[j + n]);
                assert(self.entries@[j] == before[j + n]);
            }
        }
        events
    }

    fn flush(&mut self, backend: &mut Backend)
        requires
            old(self).wf(),
            old(backend).wf(),
        ensures
            final(self).wf(),
            final(backend).wf(),
            final(self).handle == old(self).handle,
            final(self).time == old(self).time,
            final(self).entries == old(self).entries,
            !final(self).dirty,
            final(backend)@ == logical(old(backend)@, old(self).pending()),
            old(self).pending() is Some ==> read_timer::<T>(final(backend)@, old(self).handle@)
                == Ok::<(u64, Seq<(u64, (u64, T))>), StateError>(
                (old(self).time, old(self).entries@),
            ),
            final(backend).spec_path() == old(backend).spec_path(),
            final(backend).spec_state_id() == old(backend).spec_state_id(),
    {
        if self.dirty {
            let mut parts: Vec<Vec<u8>> = Vec::new();
            parts.push(self.time.encode());
            let inner = encode_frames(&self.rows);
            assert(inner.len() <= usize::MAX);
            parts.push(inner);
            assert(views(parts@) =~= seq![self.time.encoding(), frames_encoding(views(self.rows@))]);
            let bytes = encode_frames(&parts);
            let key: Vec<u8> = Vec::new();
            assert(key@ =~= Seq::<u8>::empty());
            proof {
                self.lemma_stored();
            }
            backend.put(&self.handle, key.as_slice(), bytes);
            self.dirty = false;
        }
    }
}

/// Whether the timer at place `a` comes before the one behind it.
pub open spec fn steps_up<T>(entries: Seq<(u64, (u64, T))>, a: int) -> bool {
    precedes(slot_of(entries[a]), slot_of(entries[a + 1]))
}

/// Timers of which each comes before the next stand in firing order.
pub proof fn lemma_chain_in_order<T>(entries: Seq<(u64, (u64, T))>)
    requires
        forall|a: int| 0 <= a < entries.len() - 1 ==> #[trigger] steps_up(entries, a),
    ensures
        in_order(entries),
{
    assert forall|i: int, j: int| 0 <= i < j < entries.len() implies precedes(
        slot_of(#[trigger] entries[i]),
        slot_of(#[trigger] entries[j]),
    ) by {
        lemma_chain_step(entries, i, j);
    }
}

proof fn lemma_chain_step<T>(entries: Seq<(u64, (u64, T))>, i: int, j: int)
    requires
        forall|a: int| 0 <= a < entries.len() - 1 ==> #[trigger] steps_up(entries, a),
        0 <= i < j < entries.len(),
    ensures
        precedes(slot_of(entries[i]), slot_of(entries[j])),
    decreases j - i,
{
    if j == i + 1 {
        assert(steps_up(entries, i));
    } else {
        lemma_chain_step(entries, i, j - 1);
        assert(steps_up(entries, j - 1));
    }
}

impl<T: IndexValue> IndexOps for Timer<T> {
    closed spec fn wf(&self) -> bool {
        &&& in_order(self.entries@)
        &&& rows_hold(self.rows@, self.entries@)
    }

    closed spec fn handle_name(&self) -> Seq<u8> {
        self.handle@
    }

    closed spec fn pending(&self) -> Option<Write> {
        if self.dirty {
            Some(
                Write { handle: self.handle@, key: Seq::empty(), bytes: Some(self.stored_bytes()) },
            )
        } else {
            None
        }
    }

    open spec fn keyed_at(&self, key: u64) -> bool {
        true
    }

    /// Stores the clock and the timers. What was stored is then what a
    /// restored service starts from.
    fn persist(&mut self, backend: &mut Backend) -> (r: ArconResult<()>)
        ensures
            final(self).spec_time() == old(self).spec_time(),
            final(self).scheduled() == old(self).scheduled(),
            old(self).pending() is Some ==> read_timer::<T>(
                final(backend)@,
                old(self).handle_name(),
            ) == Ok::<(u64, Seq<(u64, (u64, T))>), StateError>(
                (old(self).spec_time(), old(self).scheduled()),
            ),
    {
        self.flush(backend);
        Ok(())
    }

    /// Timers carry their own key: the service has no active key, and this
    /// only stores what is held back.
    fn set_key(&mut self, backend: &mut Backend, key: u64)
        ensures
            final(self).spec_time() == old(self).spec_time(),
            final(self).scheduled() == old(self).scheduled(),
    {
        self.flush(backend);
    }

    /// The service has no table.
    fn table(&mut self, backend: &Backend) -> (r: ArconResult<Option<ImmutableTable>>)
        ensures
            r matches Ok(None),
            final(self).spec_time() == old(self).spec_time(),
            final(self).scheduled() == old(self).scheduled(),
    {
        Ok(None)
    }
}

} // verus!
