//! Appender indices: an append-only log per key.
//!
//! A log is stored as one list under the key. `LazyAppender` reads and writes
//! the stored list on every call. `EagerAppender` keeps the log of the active
//! key in memory once it has been written to, and stores it when the key
//! changes or on `persist`.

use crate::backend::{Backend, Handle};
use crate::codec::{
    all_decode, decode_frames, decode_rows, decodings, duplicate_list, encode_frames,
    frames_encoding, lemma_rows_round_trip, list_decoding, views, IndexValue,
};
use crate::error::{ArconResult, BackendError, IndexError, StateError, StateResult};
use crate::index::{key_bytes, key_to_bytes, logical, read_list, AppenderIndex, IndexOps, Write};
use crate::table::ImmutableTable;
use core::marker::PhantomData;
use vstd::prelude::*;

verus! {

/// Whether the byte strings of `rows` decode to `items`, one by one.
pub open spec fn rows_hold<V: IndexValue>(rows: Seq<Vec<u8>>, items: Seq<V>) -> bool {
    &&& rows.len() == items.len()
    &&& forall|i: int| 0 <= i < rows.len() ==> V::decoding((#[trigger] rows[i])@) == Some(items[i])
}

/// The frames of rows that hold `items` decode to `items`.
pub proof fn lemma_rows_decode<V: IndexValue>(rows: Seq<Vec<u8>>, items: Seq<V>)
    requires
        rows_hold(rows, items),
    ensures
        list_decoding::<V>(frames_encoding(views(rows))) == Some(items),
{
    lemma_rows_round_trip(rows);
    let frames = views(rows);
    assert forall|i: int| 0 <= i < frames.len() implies V::decoding(#[trigger] frames[i]) is Some by {
        assert(frames[i] == rows[i]@);
    }
    assert forall|i: int| 0 <= i < frames.len() implies decodings::<V>(frames)[i] == items[i] by {
        assert(frames[i] == rows[i]@);
    }
    assert(decodings::<V>(frames) =~= items);
}

/// Reads the list stored under `handle` and `key`, with the stored bytes of
/// each item.
pub fn load_list<V: IndexValue>(backend: &Backend, handle: &Handle, key: &[u8]) -> (r: StateResult<
    (Vec<V>, Vec<Vec<u8>>),
>)
    requires
        backend.wf(),
    ensures
        match r {
            Ok((items, rows)) => read_list::<V>(backend@, handle@, key@) == Ok::<
                Seq<V>,
                StateError,
            >(items@) && rows_hold(rows@, items@),
            Err(e) => read_list::<V>(backend@, handle@, key@) == Err::<Seq<V>, StateError>(e),
        },
{
    match backend.get(handle, key) {
        None => {
            let items: Vec<V> = Vec::new();
            let rows: Vec<Vec<u8>> = Vec::new();
            assert(items@ =~= Seq::<V>::empty());
            Ok((items, rows))
        },
        Some(bytes) => match decode_frames(bytes.as_slice()) {
            None => Err(StateError::Backend(BackendError::Encoding)),
            Some(rows) => match decode_rows::<V>(&rows) {
                None => Err(StateError::Backend(BackendError::Encoding)),
                Some(items) => {
                    assert forall|i: int| 0 <= i < rows@.len() implies V::decoding(
                        (#[trigger] rows@[i])@,
                    ) == Some(items@[i]) by {
                        assert(views(rows@)[i] == rows@[i]@);
                    }
                    Ok((items, rows))
                },
            },
        },
    }
}

/// Stores the list whose items have the bytes `rows`.
pub(crate) fn store_list<V: IndexValue>(
    backend: &mut Backend,
    handle: &Handle,
    key: &[u8],
    rows: &Vec<Vec<u8>>,
    Ghost(items): Ghost<Seq<V>>,
)
    requires
        old(backend).wf(),
        rows_hold(rows@, items),
    ensures
        final(backend).wf(),
        final(backend)@ == old(backend)@.insert((handle@, key@), frames_encoding(views(rows@))),
        read_list::<V>(final(backend)@, handle@, key@) == Ok::<Seq<V>, StateError>(items),
        final(backend).spec_path() == old(backend).spec_path(),
        final(backend).spec_state_id() == old(backend).spec_state_id(),
{
    let bytes = encode_frames(rows);
    proof {
        lemma_rows_decode(rows@, items);
    }
    backend.put(handle, key, bytes);
}

/// A copy of byte strings.
pub fn duplicate_rows(rows: &Vec<Vec<u8>>) -> (out: Vec<Vec<u8>>)
    ensures
        views(out@) == views(rows@),
{
    let mut out: Vec<Vec<u8>> = Vec::new();
    let mut i: usize = 0;
    while i < rows.len()
        invariant
            i <= rows@.len(),
            out@.len() == i,
            forall|j: int| 0 <= j < i ==> (#[trigger] out@[j])@ == rows@[j]@,
        decreases rows@.len() - i,
    {
        let row = crate::codec::copy_range(rows[i].as_slice(), 0, rows[i].len());
        assert(row@ =~= rows@[i as int]@);
        out.push(row);
        i += 1;
    }
    assert(views(out@) =~= views(rows@));
    out
}

/// An appender index that goes to the backend on every call.
pub struct LazyAppender<V: IndexValue> {
    handle: Handle,
    key: Option<u64>,
    marker: PhantomData<V>,
}

impl<V: IndexValue> LazyAppender<V> {
    /// An index that keeps its logs under the handle `name`. No key is set.
    pub fn new(name: &str) -> (idx: Self)
        ensures
            idx.wf(),
            idx.active_key() is None,
            idx.pending() is None,
            idx.handle_name() == vstd::utf8::encode_utf8(name@),
    {
        LazyAppender { handle: Handle::new(name), key: None, marker: PhantomData }
    }
}

impl<V: IndexValue> IndexOps for LazyAppender<V> {
    open spec fn wf(&self) -> bool {
        true
    }

    closed spec fn handle_name(&self) -> Seq<u8> {
        self.handle@
    }

    open spec fn pending(&self) -> Option<Write> {
        None
    }

    closed spec fn keyed_at(&self, key: u64) -> bool {
        self.key == Some(key)
    }

    fn persist(&mut self, backend: &mut Backend) -> (r: ArconResult<()>)
        ensures
            final(self).active_key() == old(self).active_key(),
    {
        Ok(())
    }

    fn set_key(&mut self, backend: &mut Backend, key: u64)
        ensures
            final(self).active_key() == Some(key),
    {
        self.key = Some(key);
    }

    fn table(&mut self, backend: &Backend) -> (r: ArconResult<Option<ImmutableTable>>)
        ensures
            final(self).active_key() == old(self).active_key(),
            match old(self).active_key() {
                Some(k) => match read_list::<V>(backend@, old(self).handle_name(), key_bytes(k)) {
                    Ok(items) => r matches Ok(Some(t)) && t@.name == old(self).handle_name()
                        && t@.schema == seq!["value"@] && t@.columns.len() == 1
                        && decodings::<V>(t@.columns[0]) == items && all_decode::<V>(
                        t@.columns[0],
                    ),
                    Err(e) => r matches Err(err) && err.message()
                        == crate::error::state_error_text(e)@,
                },
                None => r matches Err(err) && err.message() == crate::error::state_error_text(
                    StateError::Index(IndexError::KeyNotSet),
                )@,
            },
    {
        match self.key {
            None => Err(StateError::Index(IndexError::KeyNotSet).into_error()),
            Some(k) => {
                let kb = key_to_bytes(k);
                match load_list::<V>(backend, &self.handle, kb.as_slice()) {
                    Err(e) => Err(e.into_error()),
                    Ok((items, rows)) => {
                        proof {
                            assert forall|i: int| 0 <= i < rows@.len() implies V::decoding(
                                #[trigger] views(rows@)[i],
                            ) == Some(items@[i]) by {
                                assert(views(rows@)[i] == rows@[i]@);
                            }
                            assert(decodings::<V>(views(rows@)) =~= items@);
                        }
                        let name = self.handle.duplicate().into_name();
                        Ok(Some(ImmutableTable::single(name, "value", rows)))
                    },
                }
            },
        }
    }
}

impl<V: IndexValue> AppenderIndex<V> for LazyAppender<V> {
    closed spec fn active_key(&self) -> Option<u64> {
        self.key
    }

    proof fn lemma_keyed(&self, key: u64) {
    }

    fn append(&mut self, backend: &mut Backend, value: V) -> (r: StateResult<()>) {
        match self.key {
            None => Err(StateError::Index(IndexError::KeyNotSet)),
            Some(k) => {
                let kb = key_to_bytes(k);
                let (items, rows) = load_list::<V>(backend, &self.handle, kb.as_slice())?;
                let mut rows = rows;
                let bytes = value.encode();
                proof {
                    assert(bytes.len() <= usize::MAX);
                    V::lemma_round_trip(value);
                }
                rows.push(bytes);
                store_list::<V>(
                    backend,
                    &self.handle,
                    kb.as_slice(),
                    &rows,
                    Ghost(items@.push(value)),
                );
                Ok(())
            },
        }
    }

    fn consume(&mut self, backend: &mut Backend) -> (r: StateResult<Vec<V>>) {
        match self.key {
            None => Err(StateError::Index(IndexError::KeyNotSet)),
            Some(k) => {
                let kb = key_to_bytes(k);
                let (items, rows) = load_list::<V>(backend, &self.handle, kb.as_slice())?;
                backend.delete(&self.handle, kb.as_slice());
                Ok(items)
            },
        }
    }

    fn len(&self, backend: &Backend) -> (r: StateResult<usize>) {
        match self.key {
            None => Err(StateError::Index(IndexError::KeyNotSet)),
            Some(k) => {
                let kb = key_to_bytes(k);
                let (items, rows) = load_list::<V>(backend, &self.handle, kb.as_slice())?;
                Ok(items.len())
            },
        }
    }

    fn is_empty(&self, backend: &Backend) -> (r: StateResult<bool>) {
        match self.key {
            None => Err(StateError::Index(IndexError::KeyNotSet)),
            Some(k) => {
                let kb = key_to_bytes(k);
                let (items, rows) = load_list::<V>(backend, &self.handle, kb.as_slice())?;
                Ok(items.len() == 0)
            },
        }
    }
}

/// What an eager appender holds back for the active key.
enum HeldLog<V> {
    /// The log to store, with the bytes of each value.
    Log(Vec<V>, Vec<Vec<u8>>),
    /// The removal of the stored log.
    Delete,
}

/// An appender index that keeps the log of the active key in memory.
pub struct EagerAppender<V: IndexValue> {
    handle: Handle,
    key: Option<u64>,
    held: Option<HeldLog<V>>,
}

impl<V: IndexValue> EagerAppender<V> {
    /// An index that keeps its logs under the handle `name`. No key is set.
    pub fn new(name: &str) -> (idx: Self)
        ensures
            idx.wf(),
            idx.active_key() is None,
            idx.pending() is None,
            idx.handle_name() == vstd::utf8::encode_utf8(name@),
    {
        EagerAppender { handle: Handle::new(name), key: None, held: None }
    }

    fn flush(&mut self, backend: &mut Backend)
        requires
            old(self).wf(),
            old(backend).wf(),
        ensures
            final(self).wf(),
            final(backend).wf(),
            final(self).handle == old(self).handle,
            final(self).key == old(self).key,
            final(self).held is None,
            final(backend)@ == logical(old(backend)@, old(self).pending()),
            final(backend).spec_path() == old(backend).spec_path(),
            final(backend).spec_state_id() == old(backend).spec_state_id(),
    {
        let held = self.held.take();
        match (self.key, held) {
            (Some(k), Some(HeldLog::Log(items, rows))) => {
                let kb = key_to_bytes(k);
                store_list::<V>(backend, &self.handle, kb.as_slice(), &rows, Ghost(items@));
            },
            (Some(k), Some(HeldLog::Delete)) => {
                let kb = key_to_bytes(k);
                backend.delete(&self.handle, kb.as_slice());
            },
            _ => {},
        }
    }

    /// What the held log says of the active key's log, if anything is held.
    proof fn lemma_held(&self, store: crate::index::Store)
        requires
            self.wf(),
            self.held is Some,
        ensures
            self.key is Some,
            read_list::<V>(
                logical(store, self.pending()),
                self.handle@,
                key_bytes(self.key.unwrap()),
            ) == Ok::<Seq<V>, StateError>(
                match self.held.unwrap() {
                    HeldLog::Log(items, rows) => items@,
                    HeldLog::Delete => Seq::empty(),
                },
            ),
    {
        match self.held.unwrap() {
            HeldLog::Log(items, rows) => {
                lemma_rows_decode(rows@, items@);
            },
            HeldLog::Delete => {},
        }
    }
}

impl<V: IndexValue> IndexOps for EagerAppender<V> {
    closed spec fn wf(&self) -> bool {
        match self.held {
            Some(HeldLog::Log(items, rows)) => self.key is Some && rows_hold(rows@, items@),
            Some(HeldLog::Delete) => self.key is Some,
            None => true,
        }
    }

    closed spec fn handle_name(&self) -> Seq<u8> {
        self.handle@
    }

    closed spec fn pending(&self) -> Option<Write> {
        match (self.key, self.held) {
            (Some(k), Some(HeldLog::Log(items, rows))) => Some(
                Write {
                    handle: self.handle@,
                    key: key_bytes(k),
                    bytes: Some(frames_encoding(views(rows@))),
                },
            ),
            (Some(k), Some(HeldLog::Delete)) => Some(
                Write { handle: self.handle@, key: key_bytes(k), bytes: None },
            ),
            _ => None,
        }
    }

    closed spec fn keyed_at(&self, key: u64) -> bool {
        self.key == Some(key)
    }

    fn persist(&mut self, backend: &mut Backend) -> (r: ArconResult<()>)
        ensures
            final(self).active_key() == old(self).active_key(),
    {
        self.flush(backend);
        Ok(())
    }

    fn set_key(&mut self, backend: &mut Backend, key: u64)
        ensures
            final(self).active_key() == Some(key),
    {
        self.flush(backend);
        self.key = Some(key);
    }

    fn table(&mut self, backend: &Backend) -> (r: ArconResult<Option<ImmutableTable>>)
        ensures
            final(self).active_key() == old(self).active_key(),
            match old(self).active_key() {
                Some(k) => match read_list::<V>(
                    logical(backend@, old(self).pending()),
                    old(self).handle_name(),
                    key_bytes(k),
                ) {
                    Ok(items) => r matches Ok(Some(t)) && t@.name == old(self).handle_name()
                        && t@.schema == seq!["value"@] && t@.columns.len() == 1
                        && decodings::<V>(t@.columns[0]) == items && all_decode::<V>(
                        t@.columns[0],
                    ),
                    Err(e) => r matches Err(err) && err.message()
                        == crate::error::state_error_text(e)@,
                },
                None => r matches Err(err) && err.message() == crate::error::state_error_text(
                    StateError::Index(IndexError::KeyNotSet),
                )@,
            },
    {
        match self.key {
            None => Err(StateError::Index(IndexError::KeyNotSet).into_error()),
            Some(k) => {
                let kb = key_to_bytes(k);
                let loaded = match &self.held {
                    Some(HeldLog::Log(items, rows)) => {
                        proof {
                            self.lemma_held(backend@);
                        }
                        Ok((duplicate_list(items), duplicate_rows(rows)))
                    },
                    Some(HeldLog::Delete) => {
                        proof {
                            self.lemma_held(backend@);
                        }
                        let items: Vec<V> = Vec::new();
                        let rows: Vec<Vec<u8>> = Vec::new();
                        assert(views(rows@) =~= Seq::<Seq<u8>>::empty());
                        Ok((items, rows))
                    },
                    None => load_list::<V>(backend, &self.handle, kb.as_slice()),
                };
                match loaded {
                    Err(e) => Err(e.into_error()),
                    Ok((items, rows)) => {
                        proof {
                            assert(views(rows@).len() == items@.len());
                            assert forall|i: int| 0 <= i < views(rows@).len() implies V::decoding(
                                #[trigger] views(rows@)[i],
                            ) == Some(items@[i]) by {
                                match self.held {
                                    Some(HeldLog::Log(held_items, held_rows)) => {
                                        assert(views(rows@)[i] == views(held_rows@)[i]);
                                        assert(views(held_rows@)[i] == held_rows@[i]@);
                                    },
                                    Some(HeldLog::Delete) => {},
                                    None => {
                                        assert(views(rows@)[i] == rows@[i]@);
                                    },
                                }
                            }
                            assert(decodings::<V>(views(rows@)) =~= items@);
                        }
                        let name = self.handle.duplicate().into_name();
                        Ok(Some(ImmutableTable::single(name, "value", rows)))
                    },
                }
            },
        }
    }
}

impl<V: IndexValue> AppenderIndex<V> for EagerAppender<V> {
    closed spec fn active_key(&self) -> Option<u64> {
        self.key
    }

    proof fn lemma_keyed(&self, key: u64) {
    }

    fn append(&mut self, backend: &mut Backend, value: V) -> (r: StateResult<()>)
        ensures
            final(backend)@ == old(backend)@,
    {
        match self.key {
            None => Err(StateError::Index(IndexError::KeyNotSet)),
            Some(k) => {
                let kb = key_to_bytes(k);
                let held = self.held.take();
                let (items, rows) = match held {
                    Some(HeldLog::Log(items, rows)) => {
                        proof {
                            old(self).lemma_held(backend@);
                        }
                        (items, rows)
                    },
                    Some(HeldLog::Delete) => {
                        proof {
                            old(self).lemma_held(backend@);
                        }
                        (Vec::new(), Vec::new())
                    },
                    None => match load_list::<V>(backend, &self.handle, kb.as_slice()) {
                        Ok(pair) => pair,
                        Err(e) => {
                            return Err(e);
                        },
                    },
                };
                let mut items = items;
                let mut rows = rows;
                let bytes = value.encode();
                proof {
                    assert(bytes.len() <= usize::MAX);
                    V::lemma_round_trip(value);
                }
                items.push(value);
                rows.push(bytes);
                proof {
                    lemma_rows_decode(rows@, items@);
                }
                self.held = Some(HeldLog::Log(items, rows));
                Ok(())
            },
        }
    }

    fn consume(&mut self, backend: &mut Backend) -> (r: StateResult<Vec<V>>)
        ensures
            final(backend)@ == old(backend)@,
    {
        match self.key {
            None => Err(StateError::Index(IndexError::KeyNotSet)),
            Some(k) => {
                let kb = key_to_bytes(k);
                let held = self.held.take();
                let items = match held {
                    Some(HeldLog::Log(items, rows)) => {
                        proof {
                            old(self).lemma_held(backend@);
                        }
                        items
                    },
                    Some(HeldLog::Delete) => {
                        proof {
                            old(self).lemma_held(backend@);
                        }
                        Vec::new()
                    },
                    None => match load_list::<V>(backend, &self.handle, kb.as_slice()) {
                        Ok((items, rows)) => items,
                        Err(e) => {
                            return Err(e);
                        },
                    },
                };
                proof {
                    let slot = (self.handle@, key_bytes(k));
                    let before = logical(backend@, old(self).pending());
                    assert(backend@.remove(slot) =~= before.remove(slot));
                }
                self.held = Some(HeldLog::Delete);
                Ok(items)
            },
        }
    }

    fn len(&self, backend: &Backend) -> (r: StateResult<usize>) {
        match self.key {
            None => Err(StateError::Index(IndexError::KeyNotSet)),
            Some(k) => match &self.held {
                Some(HeldLog::Log(items, rows)) => {
                    proof {
                        self.lemma_held(backend@);
                    }
                    Ok(items.len())
                },
                Some(HeldLog::Delete) => {
                    proof {
                        self.lemma_held(backend@);
                    }
                    Ok(0)
                },
                None => {
                    let kb = key_to_bytes(k);
                    let (items, rows) = load_list::<V>(backend, &self.handle, kb.as_slice())?;
                    Ok(items.len())
                },
            },
        }
    }

    fn is_empty(&self, backend: &Backend) -> (r: StateResult<bool>) {
        match self.key {
            None => Err(StateError::Index(IndexError::KeyNotSet)),
            Some(k) => match &self.held {
                Some(HeldLog::Log(items, rows)) => {
                    proof {
                        self.lemma_held(backend@);
                    }
                    Ok(items.len() == 0)
                },
                Some(HeldLog::Delete) => {
                    proof {
                        self.lemma_held(backend@);
                    }
                    Ok(true)
                },
                None => {
                    let kb = key_to_bytes(k);
                    let (items, rows) = load_list::<V>(backend, &self.handle, kb.as_slice())?;
                    Ok(items.len() == 0)
                },
            },
        }
    }
}

} // verus!
