//! Value indices: one optional value per key.
//!
//! `LazyValue` reads and writes the backend on every call. `EagerValue` keeps
//! what was last written for the active key, serves reads from it, and writes
//! it to the backend when the key changes or on `persist`.

use crate::backend::{Backend, Handle};
use crate::codec::IndexValue;
use crate::error::{ArconResult, BackendError, IndexError, StateError, StateResult};
use crate::index::{
    key_bytes, key_to_bytes, logical, or_default, read_value, value_rmw_made, IndexOps,
    ValueIndex, Write,
};
use crate::table::{ImmutableTable, TableView};
use core::marker::PhantomData;
use vstd::prelude::*;

verus! {

/// Reads the value stored under `handle` and `key`.
pub fn load_value<V: IndexValue>(backend: &Backend, handle: &Handle, key: u64) -> (r: StateResult<
    Option<V>,
>)
    requires
        backend.wf(),
    ensures
        r == read_value::<V>(backend@, handle@, key),
{
    let kb = key_to_bytes(key);
    match backend.get(handle, kb.as_slice()) {
        None => Ok(None),
        Some(bytes) => match V::decode(bytes.as_slice()) {
            Some(v) => Ok(Some(v)),
            None => Err(StateError::Backend(BackendError::Encoding)),
        },
    }
}

/// The table of a value index: one column, with one cell where there is a
/// value and none where there is not.
pub open spec fn value_table<V: IndexValue>(name: Seq<u8>, found: Option<V>) -> TableView {
    TableView {
        name,
        schema: seq!["value"@],
        columns: seq![
            match found {
                Some(v) => seq![v.encoding()],
                None => Seq::empty(),
            },
        ],
    }
}

/// What `table` gives for a value index: the table of the value read for the
/// active key, or the error of that read.
pub open spec fn value_table_result<V: IndexValue>(
    read: StateResult<Option<V>>,
    name: Seq<u8>,
    r: ArconResult<Option<ImmutableTable>>,
) -> bool {
    match read {
        Ok(found) => r matches Ok(Some(t)) && t@ == value_table(name, found),
        Err(e) => r matches Err(err) && err.message() == crate::error::state_error_text(e)@,
    }
}

fn make_value_table<V: IndexValue>(handle: &Handle, read: StateResult<Option<V>>) -> (r:
    ArconResult<Option<ImmutableTable>>)
    ensures
        value_table_result(read, handle@, r),
{
    match read {
        Ok(found) => {
            let mut cells: Vec<Vec<u8>> = Vec::new();
            match found {
                Some(v) => {
                    cells.push(v.encode());
                    assert(crate::codec::views(cells@) =~= seq![v.encoding()]);
                },
                None => {
                    assert(crate::codec::views(cells@) =~= Seq::<Seq<u8>>::empty());
                },
            }
            let name = handle.duplicate().into_name();
            Ok(Some(ImmutableTable::single(name, "value", cells)))
        },
        Err(e) => Err(e.into_error()),
    }
}

/// A value index that goes to the backend on every call.
pub struct LazyValue<V: IndexValue> {
    handle: Handle,
    key: Option<u64>,
    marker: PhantomData<V>,
}

impl<V: IndexValue> LazyValue<V> {
    /// An index that keeps its values under the handle `name`. No key is set.
    pub fn new(name: &str) -> (idx: Self)
        ensures
            idx.wf(),
            idx.active_key() is None,
            idx.pending() is None,
            idx.handle_name() == vstd::utf8::encode_utf8(name@),
    {
        LazyValue { handle: Handle::new(name), key: None, marker: PhantomData }
    }
}

impl<V: IndexValue> IndexOps for LazyValue<V> {
    open spec fn wf(&self) -> bool {
        true
    }

    closed spec fn handle_name(&self) -> Seq<u8> {
        self.handle@
    }

    open spec fn pending(&self) -> Option<Write> {
        None
    }

    closed spec fn keyed_at(&self, key: u64) -> bool {
        self.key == Some(key)
    }

    fn persist(&mut self, backend: &mut Backend) -> (r: ArconResult<()>)
        ensures
            final(self).active_key() == old(self).active_key(),
    {
        Ok(())
    }

    fn set_key(&mut self, backend: &mut Backend, key: u64)
        ensures
            final(self).active_key() == Some(key),
    {
        self.key = Some(key);
    }

    fn table(&mut self, backend: &Backend) -> (r: ArconResult<Option<ImmutableTable>>)
        ensures
            final(self).active_key() == old(self).active_key(),
            value_table_result(
                match old(self).active_key() {
                    Some(k) => read_value::<V>(backend@, old(self).handle_name(), k),
                    None => Err(StateError::Index(IndexError::KeyNotSet)),
                },
                old(self).handle_name(),
                r,
            ),
    {
        let read = self.get(backend);
        make_value_table(&self.handle, read)
    }
}

impl<V: IndexValue> ValueIndex<V> for LazyValue<V> {
    closed spec fn active_key(&self) -> Option<u64> {
        self.key
    }

    proof fn lemma_keyed(&self, key: u64) {
    }

    fn put(&mut self, backend: &mut Backend, value: V) -> (r: StateResult<()>) {
        match self.key {
            None => Err(StateError::Index(IndexError::KeyNotSet)),
            Some(k) => {
                let kb = key_to_bytes(k);
                let bytes = value.encode();
                proof {
                    assert(bytes.len() <= usize::MAX);
                    V::lemma_round_trip(value);
                }
                backend.put(&self.handle, kb.as_slice(), bytes);
                Ok(())
            },
        }
    }

    fn get(&self, backend: &Backend) -> (r: StateResult<Option<V>>) {
        match self.key {
            None => Err(StateError::Index(IndexError::KeyNotSet)),
            Some(k) => load_value(backend, &self.handle, k),
        }
    }

    fn take(&mut self, backend: &mut Backend) -> (r: StateResult<Option<V>>) {
        match self.key {
            None => Err(StateError::Index(IndexError::KeyNotSet)),
            Some(k) => {
                let found = load_value::<V>(backend, &self.handle, k)?;
                let kb = key_to_bytes(k);
                backend.delete(&self.handle, kb.as_slice());
                Ok(found)
            },
        }
    }

    fn clear(&mut self, backend: &mut Backend) -> (r: StateResult<()>) {
        match self.key {
            None => Err(StateError::Index(IndexError::KeyNotSet)),
            Some(k) => {
                let kb = key_to_bytes(k);
                backend.delete(&self.handle, kb.as_slice());
                Ok(())
            },
        }
    }

    fn rmw<F: FnOnce(V) -> V>(&mut self, backend: &mut Backend, f: F) -> (r: StateResult<()>) {
        match self.key {
            None => Err(StateError::Index(IndexError::KeyNotSet)),
            Some(k) => {
                let found = load_value::<V>(backend, &self.handle, k)?;
                let start = match found {
                    Some(v) => v,
                    None => V::initial(),
                };
                let made = f(start);
                let kb = key_to_bytes(k);
                let bytes = made.encode();
                proof {
                    assert(bytes.len() <= usize::MAX);
                    V::lemma_round_trip(made);
                }
                backend.put(&self.handle, kb.as_slice(), bytes);
                proof {
                    assert(f.ensures((or_default(found),), made));
                    assert(value_rmw_made(
                        f,
                        found,
                        old(backend)@,
                        backend@,
                        self.handle@,
                        k,
                    ));
                }
                Ok(())
            },
        }
    }
}

/// What an eager index holds back for the active key.
enum Held<V> {
    /// The value to store, with its encoding.
    Put(V, Vec<u8>),
    /// The removal of what is stored.
    Delete,
}

/// A value index that keeps the last write for the active key in memory.
pub struct EagerValue<V: IndexValue> {
    handle: Handle,
    key: Option<u64>,
    held: Option<Held<V>>,
}

impl<V: IndexValue> EagerValue<V> {
    /// An index that keeps its values under the handle `name`. No key is set.
    pub fn new(name: &str) -> (idx: Self)
        ensures
            idx.wf(),
            idx.active_key() is None,
            idx.pending() is None,
            idx.handle_name() == vstd::utf8::encode_utf8(name@),
    {
        EagerValue { handle: Handle::new(name), key: None, held: None }
    }

    fn flush(&mut self, backend: &mut Backend)
        requires
            old(self).wf(),
            old(backend).wf(),
        ensures
            final(self).wf(),
            final(backend).wf(),
            final(self).handle == old(self).handle,
            final(self).key == old(self).key,
            final(self).held is None,
            final(backend)@ == logical(old(backend)@, old(self).pending()),
            final(backend).spec_path() == old(backend).spec_path(),
            final(backend).spec_state_id() == old(backend).spec_state_id(),
    {
        let held = self.held.take();
        match (self.key, held) {
            (Some(k), Some(Held::Put(_, bytes))) => {
                let kb = key_to_bytes(k);
                backend.put(&self.handle, kb.as_slice(), bytes);
            },
            (Some(k), Some(Held::Delete)) => {
                let kb = key_to_bytes(k);
                backend.delete(&self.handle, kb.as_slice());
            },
            _ => {},
        }
    }
}

impl<V: IndexValue> IndexOps for EagerValue<V> {
    closed spec fn wf(&self) -> bool {
        match self.held {
            Some(Held::Put(v, bytes)) => self.key is Some && bytes@ == v.encoding(),
            Some(Held::Delete) => self.key is Some,
            None => true,
        }
    }

    closed spec fn handle_name(&self) -> Seq<u8> {
        self.handle@
    }

    closed spec fn pending(&self) -> Option<Write> {
        match (self.key, self.held) {
            (Some(k), Some(Held::Put(v, bytes))) => Some(
                Write { handle: self.handle@, key: key_bytes(k), bytes: Some(bytes@) },
            ),
            (Some(k), Some(Held::Delete)) => Some(
                Write { handle: self.handle@, key: key_bytes(k), bytes: None },
            ),
            _ => None,
        }
    }

    closed spec fn keyed_at(&self, key: u64) -> bool {
        self.key == Some(key)
    }

    fn persist(&mut self, backend: &mut Backend) -> (r: ArconResult<()>)
        ensures
            final(self).active_key() == old(self).active_key(),
    {
        self.flush(backend);
        Ok(())
    }

    fn set_key(&mut self, backend: &mut Backend, key: u64)
        ensures
            final(self).active_key() == Some(key),
    {
        self.flush(backend);
        self.key = Some(key);
    }

    fn table(&mut self, backend: &Backend) -> (r: ArconResult<Option<ImmutableTable>>)
        ensures
            final(self).active_key() == old(self).active_key(),
            value_table_result(
                match old(self).active_key() {
                    Some(k) => read_value::<V>(
                        logical(backend@, old(self).pending()),
                        old(self).handle_name(),
                        k,
                    ),
                    None => Err(StateError::Index(IndexError::KeyNotSet)),
                },
                old(self).handle_name(),
                r,
            ),
    {
        let read = self.get(backend);
        make_value_table(&self.handle, read)
    }
}

impl<V: IndexValue> ValueIndex<V> for EagerValue<V> {
    closed spec fn active_key(&self) -> Option<u64> {
        self.key
    }

    proof fn lemma_keyed(&self, key: u64) {
    }

    fn put(&mut self, backend: &mut Backend, value: V) -> (r: StateResult<()>)
        ensures
            final(backend)@ == old(backend)@,
    {
        match self.key {
            None => Err(StateError::Index(IndexError::KeyNotSet)),
            Some(k) => {
                let bytes = value.encode();
                proof {
                    assert(bytes.len() <= usize::MAX);
                    V::lemma_round_trip(value);
                    let slot = (self.handle@, key_bytes(k));
                    let before = logical(backend@, self.pending());
                    assert(backend@.insert(slot, bytes@) =~= before.insert(slot, bytes@));
                }
                self.held = Some(Held::Put(value, bytes));
                Ok(())
            },
        }
    }

    fn get(&self, backend: &Backend) -> (r: StateResult<Option<V>>) {
        match self.key {
            None => Err(StateError::Index(IndexError::KeyNotSet)),
            Some(k) => match &self.held {
                Some(Held::Put(v, bytes)) => {
                    proof {
                        assert(bytes.len() <= usize::MAX);
                        V::lemma_round_trip(*v);
                    }
                    Ok(Some(v.duplicate()))
                },
                Some(Held::Delete) => Ok(None),
                None => load_value(backend, &self.handle, k),
            },
        }
    }

    fn take(&mut self, backend: &mut Backend) -> (r: StateResult<Option<V>>)
        ensures
            final(backend)@ == old(backend)@,
    {
        let found = self.get(backend)?;
        proof {
            let k = self.key.unwrap();
            let slot = (self.handle@, key_bytes(k));
            let before = logical(backend@, self.pending());
            assert(backend@.remove(slot) =~= before.remove(slot));
        }
        self.held = Some(Held::Delete);
        Ok(found)
    }

    fn clear(&mut self, backend: &mut Backend) -> (r: StateResult<()>)
        ensures
            final(backend)@ == old(backend)@,
    {
        match self.key {
            None => Err(StateError::Index(IndexError::KeyNotSet)),
            Some(k) => {
                proof {
                    let slot = (self.handle@, key_bytes(k));
                    let before = logical(backend@, self.pending());
                    assert(backend@.remove(slot) =~= before.remove(slot));
                }
                self.held = Some(Held::Delete);
                Ok(())
            },
        }
    }

    fn rmw<F: FnOnce(V) -> V>(&mut self, backend: &mut Backend, f: F) -> (r: StateResult<()>)
        ensures
            final(backend)@ == old(backend)@,
    {
        let found = self.get(backend)?;
        let start = match found {
            Some(v) => v,
            None => V::initial(),
        };
        let made = f(start);
        let bytes = made.encode();
        let ghost before = logical(backend@, self.pending());
        proof {
            let k = self.key.unwrap();
            assert(bytes.len() <= usize::MAX);
            V::lemma_round_trip(made);
            let slot = (self.handle@, key_bytes(k));
            assert(backend@.insert(slot, bytes@) =~= before.insert(slot, bytes@));
        }
        self.held = Some(Held::Put(made, bytes));
        proof {
            assert(f.ensures((or_default(found),), made));
            assert(value_rmw_made(
                f,
                found,
                before,
                logical(backend@, self.pending()),
                self.handle@,
                self.key.unwrap(),
            ));
        }
        Ok(())
    }
}

} // verus!
