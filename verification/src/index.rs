//! Indices: typed state kept in a backend under a handle and the active key.
//!
//! An index may hold one write that has not reached the backend yet. What the
//! index stands for is the backend's contents with that write applied; every
//! contract of an index speaks of those contents.

pub mod appender;
pub mod hash_table;
pub mod timer;
pub mod window;
pub mod value;

pub use self::appender::{EagerAppender, LazyAppender};
pub use self::hash_table::{EagerHashTable, HashTable};
pub use self::timer::{Timer, TimerEvent};
pub use self::value::{EagerValue, LazyValue};
pub use self::window::{
    AppenderWindow, ArrowWindow, IncrementalWindow, WindowContext, WindowIndex,
};
use crate::backend::{restore_outcome, Backend};
use crate::codec::{list_decoding, IndexValue};
use crate::error::{
    snapshot_error_text, ArconResult, BackendError, IndexError, StateError, StateResult,
};
use crate::snapshot::Snapshot;
use crate::table::ImmutableTable;
use vstd::utf8::encode_utf8;
use vstd::bytes::{spec_u64_to_le_bytes, u64_to_le_bytes};
use vstd::prelude::*;

verus! {

/// The contents of a backend: stored bytes by handle name and key.
pub type Store = Map<(Seq<u8>, Seq<u8>), Seq<u8>>;

/// A write that an index holds back: the bytes to store under a handle and a
/// key, or the removal of what is stored there.
pub ghost struct Write {
    pub handle: Seq<u8>,
    pub key: Seq<u8>,
    pub bytes: Option<Seq<u8>>,
}

/// The contents of `store` once `pending` has been written.
pub open spec fn logical(store: Store, pending: Option<Write>) -> Store {
    match pending {
        None => store,
        Some(w) => match w.bytes {
            Some(b) => store.insert((w.handle, w.key), b),
            None => store.remove((w.handle, w.key)),
        },
    }
}

/// The bytes that stand for a key of the runtime: eight bytes, the lowest
/// first.
pub open spec fn key_bytes(key: u64) -> Seq<u8> {
    spec_u64_to_le_bytes(key)
}

/// Writes the bytes of a key.
pub fn key_to_bytes(key: u64) -> (out: Vec<u8>)
    ensures
        out@ == key_bytes(key),
{
    u64_to_le_bytes(key)
}

/// What reading one value under `handle` and `key` gives: nothing where
/// nothing is stored, the value where the stored bytes decode, and an
/// encoding error where they do not.
pub open spec fn read_value<V: IndexValue>(store: Store, handle: Seq<u8>, key: u64) -> StateResult<
    Option<V>,
> {
    if store.contains_key((handle, key_bytes(key))) {
        match V::decoding(store[(handle, key_bytes(key))]) {
            Some(v) => Ok(Some(v)),
            None => Err(StateError::Backend(BackendError::Encoding)),
        }
    } else {
        Ok(None)
    }
}

/// What reading a list under `handle` and `key` gives: the empty list where
/// nothing is stored, the list where the stored bytes decode, and an encoding
/// error where they do not.
pub open spec fn read_list<V: IndexValue>(store: Store, handle: Seq<u8>, key: Seq<u8>) -> StateResult<
    Seq<V>,
> {
    if store.contains_key((handle, key)) {
        match list_decoding::<V>(store[(handle, key)]) {
            Some(items) => Ok(items),
            None => Err(StateError::Backend(BackendError::Encoding)),
        }
    } else {
        Ok(Seq::empty())
    }
}

/// Whether two stores agree at every slot but the one under `handle` and
/// `key`.
pub open spec fn same_elsewhere(a: Store, b: Store, handle: Seq<u8>, key: Seq<u8>) -> bool {
    forall|slot: (Seq<u8>, Seq<u8>)|
        slot != (handle, key) ==> (#[trigger] a.contains_key(slot) == b.contains_key(slot)) && (
        a.contains_key(slot) ==> a[slot] == b[slot])
}

/// The value that a read-modify-write starts from: the value found, or the
/// default where none was found.
pub open spec fn or_default<V: IndexValue>(found: Option<V>) -> V {
    match found {
        Some(v) => v,
        None => V::default_value(),
    }
}

/// What a read-modify-write of a value index leaves behind: `f` made some
/// value of what was found, and that value is now stored under the key and is
/// what a read gives.
pub open spec fn value_rmw_made<V: IndexValue, F: FnOnce(V) -> V>(
    f: F,
    found: Option<V>,
    before: Store,
    after: Store,
    handle: Seq<u8>,
    key: u64,
) -> bool {
    exists|made: V|
        {
            &&& #[trigger] f.ensures((or_default(found),), made)
            &&& after == before.insert((handle, key_bytes(key)), made.encoding())
            &&& read_value::<V>(after, handle, key) == Ok::<Option<V>, StateError>(Some(made))
        }
}

/// What a read-modify-write of a map index leaves behind: `f` made some value
/// of what the map held for `key`, and the map now holds that value for it.
pub open spec fn map_rmw_made<K: IndexValue, V: IndexValue, F: FnOnce(V) -> V>(
    f: F,
    pairs: Seq<(K, V)>,
    key: K,
    after: StateResult<Seq<(K, V)>>,
) -> bool {
    exists|made: V|
        {
            &&& #[trigger] f.ensures((or_default(map_get(pairs, key)),), made)
            &&& after == Ok::<Seq<(K, V)>, StateError>(map_put(pairs, key, made))
        }
}

/// What every index can do.
pub trait IndexOps {
    /// Whether the index is in a state that its operations leave it in.
    spec fn wf(&self) -> bool;

    /// The name of the handle under which the index keeps its data.
    spec fn handle_name(&self) -> Seq<u8>;

    /// The write that has not reached the backend yet, if there is one.
    spec fn pending(&self) -> Option<Write>;

    /// Whether the operations of the index work on the partition of `key`:
    /// `key` is its active key, or the index has no active key, because its
    /// operations name the partition themselves.
    spec fn keyed_at(&self, key: u64) -> bool;

    /// Writes what the index holds back to the backend. Afterwards nothing is
    /// held back, and the backend holds what the index stood for. The
    /// partition that the index works on stays.
    fn persist(&mut self, backend: &mut Backend) -> (r: ArconResult<()>)
        requires
            old(self).wf(),
            old(backend).wf(),
        ensures
            r is Ok,
            final(self).wf(),
            final(backend).wf(),
            final(self).handle_name() == old(self).handle_name(),
            forall|k: u64| #[trigger] final(self).keyed_at(k) == old(self).keyed_at(k),
            final(self).pending() is None,
            final(backend)@ == logical(old(backend)@, old(self).pending()),
            final(backend).spec_path() == old(backend).spec_path(),
            final(backend).spec_state_id() == old(backend).spec_state_id(),
    ;

    /// Makes the index work on the partition of `key`: an index with an
    /// active key gets `key` as its active key, and an index whose operations
    /// name the partition themselves stays as it is. What was held back
    /// before is written to the backend first.
    fn set_key(&mut self, backend: &mut Backend, key: u64)
        requires
            old(self).wf(),
            old(backend).wf(),
        ensures
            final(self).wf(),
            final(backend).wf(),
            final(self).handle_name() == old(self).handle_name(),
            final(self).keyed_at(key),
            final(self).pending() is None,
            final(backend)@ == logical(old(backend)@, old(self).pending()),
            final(backend).spec_path() == old(backend).spec_path(),
            final(backend).spec_state_id() == old(backend).spec_state_id(),
    ;

    /// A table of what the index holds for the active key; `None` where the
    /// index has no table. The index is not changed.
    fn table(&mut self, backend: &Backend) -> (r: ArconResult<Option<ImmutableTable>>)
        requires
            old(self).wf(),
            backend.wf(),
        ensures
            final(self).wf(),
            final(self).handle_name() == old(self).handle_name(),
            final(self).pending() == old(self).pending(),
            forall|k: u64| #[trigger] final(self).keyed_at(k) == old(self).keyed_at(k),
    ;
}

/// An index that keeps one optional value per key.
pub trait ValueIndex<V: IndexValue>: IndexOps + Sized {
    /// The key whose value the operations read and write.
    spec fn active_key(&self) -> Option<u64>;

    /// The index works on the partition of a key exactly where that key is
    /// its active key.
    proof fn lemma_keyed(&self, key: u64)
        ensures
            self.keyed_at(key) == (self.active_key() == Some(key)),
    ;

    /// Stores `value` for the active key, in place of what was there.
    fn put(&mut self, backend: &mut Backend, value: V) -> (r: StateResult<()>)
        requires
            old(self).wf(),
            old(backend).wf(),
        ensures
            final(self).wf(),
            final(backend).wf(),
            final(backend).spec_path() == old(backend).spec_path(),
            final(backend).spec_state_id() == old(backend).spec_state_id(),
            final(self).handle_name() == old(self).handle_name(),
            final(self).active_key() == old(self).active_key(),
            match old(self).active_key() {
                Some(k) => {
                    &&& r is Ok
                    &&& logical(final(backend)@, final(self).pending()) == logical(
                        old(backend)@,
                        old(self).pending(),
                    ).insert((old(self).handle_name(), key_bytes(k)), value.encoding())
                    &&& read_value::<V>(
                        logical(final(backend)@, final(self).pending()),
                        old(self).handle_name(),
                        k,
                    ) == Ok::<Option<V>, StateError>(Some(value))
                    &&& same_elsewhere(
                        final(backend)@,
                        old(backend)@,
                        old(self).handle_name(),
                        key_bytes(k),
                    )
                },
                None => {
                    &&& r == Err::<(), StateError>(StateError::Index(IndexError::KeyNotSet))
                    &&& final(backend)@ == old(backend)@
                    &&& final(self).pending() == old(self).pending()
                },
            },
    ;

    /// The value of the active key, if there is one. Nothing is changed.
    fn get(&self, backend: &Backend) -> (r: StateResult<Option<V>>)
        requires
            self.wf(),
            backend.wf(),
        ensures
            r == match self.active_key() {
                Some(k) => read_value::<V>(
                    logical(backend@, self.pending()),
                    self.handle_name(),
                    k,
                ),
                None => Err(StateError::Index(IndexError::KeyNotSet)),
            },
    ;

    /// Takes the value of the active key out: returns what `get` would
    /// return, and where that is not an error, nothing is left for the key.
    fn take(&mut self, backend: &mut Backend) -> (r: StateResult<Option<V>>)
        requires
            old(self).wf(),
            old(backend).wf(),
        ensures
            final(self).wf(),
            final(backend).wf(),
            final(backend).spec_path() == old(backend).spec_path(),
            final(backend).spec_state_id() == old(backend).spec_state_id(),
            final(self).handle_name() == old(self).handle_name(),
            final(self).active_key() == old(self).active_key(),
            r == match old(self).active_key() {
                Some(k) => read_value::<V>(
                    logical(old(backend)@, old(self).pending()),
                    old(self).handle_name(),
                    k,
                ),
                None => Err(StateError::Index(IndexError::KeyNotSet)),
            },
            match (old(self).active_key(), r) {
                (Some(k), Ok(_)) => {
                    &&& logical(final(backend)@, final(self).pending()) == logical(
                        old(backend)@,
                        old(self).pending(),
                    ).remove((old(self).handle_name(), key_bytes(k)))
                    &&& same_elsewhere(
                        final(backend)@,
                        old(backend)@,
                        old(self).handle_name(),
                        key_bytes(k),
                    )
                },
                _ => {
                    &&& final(backend)@ == old(backend)@
                    &&& final(self).pending() == old(self).pending()
                },
            },
    ;

    /// Removes the value of the active key, if there is one.
    fn clear(&mut self, backend: &mut Backend) -> (r: StateResult<()>)
        requires
            old(self).wf(),
            old(backend).wf(),
        ensures
            final(self).wf(),
            final(backend).wf(),
            final(backend).spec_path() == old(backend).spec_path(),
            final(backend).spec_state_id() == old(backend).spec_state_id(),
            final(self).handle_name() == old(self).handle_name(),
            final(self).active_key() == old(self).active_key(),
            match old(self).active_key() {
                Some(k) => {
                    &&& r is Ok
                    &&& logical(final(backend)@, final(self).pending()) == logical(
                        old(backend)@,
                        old(self).pending(),
                    ).remove((old(self).handle_name(), key_bytes(k)))
                    &&& same_elsewhere(
                        final(backend)@,
                        old(backend)@,
                        old(self).handle_name(),
                        key_bytes(k),
                    )
                },
                None => {
                    &&& r == Err::<(), StateError>(StateError::Index(IndexError::KeyNotSet))
                    &&& final(backend)@ == old(backend)@
                    &&& final(self).pending() == old(self).pending()
                },
            },
    ;

    /// Replaces the value of the active key by what `f` makes of it; where
    /// there is no value, `f` gets the default. Where the stored bytes do not
    /// decode, `f` is not called and nothing is changed.
    fn rmw<F: FnOnce(V) -> V>(&mut self, backend: &mut Backend, f: F) -> (r: StateResult<()>)
        requires
            old(self).wf(),
            old(backend).wf(),
            forall|v: V| f.requires((v,)),
        ensures
            final(self).wf(),
            final(backend).wf(),
            final(backend).spec_path() == old(backend).spec_path(),
            final(backend).spec_state_id() == old(backend).spec_state_id(),
            final(self).handle_name() == old(self).handle_name(),
            final(self).active_key() == old(self).active_key(),
            match old(self).active_key() {
                Some(k) => match read_value::<V>(
                    logical(old(backend)@, old(self).pending()),
                    old(self).handle_name(),
                    k,
                ) {
                    Ok(found) => {
                        &&& r is Ok
                        &&& value_rmw_made(
                            f,
                            found,
                            logical(old(backend)@, old(self).pending()),
                            logical(final(backend)@, final(self).pending()),
                            old(self).handle_name(),
                            k,
                        )
                        &&& same_elsewhere(
                            final(backend)@,
                            old(backend)@,
                            old(self).handle_name(),
                            key_bytes(k),
                        )
                    },
                    Err(e) => {
                        &&& r == Err::<(), StateError>(e)
                        &&& final(backend)@ == old(backend)@
                        &&& final(self).pending() == old(self).pending()
                    },
                },
                None => {
                    &&& r == Err::<(), StateError>(StateError::Index(IndexError::KeyNotSet))
                    &&& final(backend)@ == old(backend)@
                    &&& final(self).pending() == old(self).pending()
                },
            },
    ;
}

/// What reading the length of a list gives.
pub open spec fn read_len<V: IndexValue>(store: Store, handle: Seq<u8>, key: Seq<u8>) -> StateResult<
    usize,
> {
    match read_list::<V>(store, handle, key) {
        Ok(items) => Ok(items.len() as usize),
        Err(e) => Err(e),
    }
}

/// An index that keeps an append-only log per key.
pub trait AppenderIndex<V: IndexValue>: IndexOps + Sized {
    /// The key whose log the operations read and write.
    spec fn active_key(&self) -> Option<u64>;

    /// The index works on the partition of a key exactly where that key is
    /// its active key.
    proof fn lemma_keyed(&self, key: u64)
        ensures
            self.keyed_at(key) == (self.active_key() == Some(key)),
    ;

    /// Adds `value` at the end of the active key's log. Where the stored log
    /// does not decode, nothing is changed.
    fn append(&mut self, backend: &mut Backend, value: V) -> (r: StateResult<()>)
        requires
            old(self).wf(),
            old(backend).wf(),
        ensures
            final(self).wf(),
            final(backend).wf(),
            final(backend).spec_path() == old(backend).spec_path(),
            final(backend).spec_state_id() == old(backend).spec_state_id(),
            final(self).handle_name() == old(self).handle_name(),
            final(self).active_key() == old(self).active_key(),
            match old(self).active_key() {
                Some(k) => match read_list::<V>(
                    logical(old(backend)@, old(self).pending()),
                    old(self).handle_name(),
                    key_bytes(k),
                ) {
                    Ok(items) => {
                        &&& r is Ok
                        &&& read_list::<V>(
                            logical(final(backend)@, final(self).pending()),
                            old(self).handle_name(),
                            key_bytes(k),
                        ) == Ok::<Seq<V>, StateError>(items.push(value))
                        &&& same_elsewhere(
                            logical(final(backend)@, final(self).pending()),
                            logical(old(backend)@, old(self).pending()),
                            old(self).handle_name(),
                            key_bytes(k),
                        )
                    },
                    Err(e) => {
                        &&& r == Err::<(), StateError>(e)
                        &&& final(backend)@ == old(backend)@
                        &&& final(self).pending() == old(self).pending()
                    },
                },
                None => {
                    &&& r == Err::<(), StateError>(StateError::Index(IndexError::KeyNotSet))
                    &&& final(backend)@ == old(backend)@
                    &&& final(self).pending() == old(self).pending()
                },
            },
    ;

    /// Takes the whole log of the active key out, in the order in which it
    /// was appended, and leaves the log empty. Where the stored log does not
    /// decode, nothing is changed.
    fn consume(&mut self, backend: &mut Backend) -> (r: StateResult<Vec<V>>)
        requires
            old(self).wf(),
            old(backend).wf(),
        ensures
            final(self).wf(),
            final(backend).wf(),
            final(backend).spec_path() == old(backend).spec_path(),
            final(backend).spec_state_id() == old(backend).spec_state_id(),
            final(self).handle_name() == old(self).handle_name(),
            final(self).active_key() == old(self).active_key(),
            match old(self).active_key() {
                Some(k) => match read_list::<V>(
                    logical(old(backend)@, old(self).pending()),
                    old(self).handle_name(),
                    key_bytes(k),
                ) {
                    Ok(items) => {
                        &&& r matches Ok(taken) && taken@ == items
                        &&& logical(final(backend)@, final(self).pending()) == logical(
                            old(backend)@,
                            old(self).pending(),
                        ).remove((old(self).handle_name(), key_bytes(k)))
                    },
                    Err(e) => {
                        &&& r matches Err(got) && got == e
                        &&& final(backend)@ == old(backend)@
                        &&& final(self).pending() == old(self).pending()
                    },
                },
                None => {
                    &&& r matches Err(got) && got == StateError::Index(IndexError::KeyNotSet)
                    &&& final(backend)@ == old(backend)@
                    &&& final(self).pending() == old(self).pending()
                },
            },
    ;

    /// The number of values in the active key's log.
    fn len(&self, backend: &Backend) -> (r: StateResult<usize>)
        requires
            self.wf(),
            backend.wf(),
        ensures
            r == match self.active_key() {
                Some(k) => read_len::<V>(
                    logical(backend@, self.pending()),
                    self.handle_name(),
                    key_bytes(k),
                ),
                None => Err(StateError::Index(IndexError::KeyNotSet)),
            },
    ;

    /// Whether the active key's log holds nothing.
    fn is_empty(&self, backend: &Backend) -> (r: StateResult<bool>)
        requires
            self.wf(),
            backend.wf(),
        ensures
            r == match self.active_key() {
                Some(k) => match read_list::<V>(
                    logical(backend@, self.pending()),
                    self.handle_name(),
                    key_bytes(k),
                ) {
                    Ok(items) => Ok(items.len() == 0),
                    Err(e) => Err(e),
                },
                None => Err(StateError::Index(IndexError::KeyNotSet)),
            },
    ;
}

/// Whether `i` is the first place in `pairs` that holds `key`.
pub open spec fn is_first<K, V>(pairs: Seq<(K, V)>, key: K, i: int) -> bool {
    &&& 0 <= i < pairs.len()
    &&& pairs[i].0 == key
    &&& forall|j: int| 0 <= j < i ==> (#[trigger] pairs[j]).0 != key
}

/// The first place in `pairs` that holds `key`, if there is one.
pub open spec fn first_of<K, V>(pairs: Seq<(K, V)>, key: K) -> Option<int> {
    if exists|i: int| is_first(pairs, key, i) {
        Some(choose|i: int| is_first(pairs, key, i))
    } else {
        None
    }
}

/// The value that `pairs` hold for `key`.
pub open spec fn map_get<K, V>(pairs: Seq<(K, V)>, key: K) -> Option<V> {
    match first_of(pairs, key) {
        Some(i) => Some(pairs[i].1),
        None => None,
    }
}

/// `pairs` with `value` for `key`: in the place of the key where it has one,
/// at the end where it has none.
pub open spec fn map_put<K, V>(pairs: Seq<(K, V)>, key: K, value: V) -> Seq<(K, V)> {
    match first_of(pairs, key) {
        Some(i) => pairs.update(i, (key, value)),
        None => pairs.push((key, value)),
    }
}

/// `pairs` without the pair of `key`.
pub open spec fn map_remove<K, V>(pairs: Seq<(K, V)>, key: K) -> Seq<(K, V)> {
    match first_of(pairs, key) {
        Some(i) => pairs.remove(i),
        None => pairs,
    }
}

/// Whether no key occurs twice in `pairs`.
pub open spec fn distinct_keys<K, V>(pairs: Seq<(K, V)>) -> bool {
    forall|i: int, j: int|
        0 <= i < j < pairs.len() ==> (#[trigger] pairs[i]).0 != (#[trigger] pairs[j]).0
}

/// An index that keeps a map per key of the runtime. The maps of two keys
/// share nothing.
pub trait MapIndex<K: IndexValue, V: IndexValue>: IndexOps + Sized {
    /// The key whose map the operations read and write.
    spec fn active_key(&self) -> Option<u64>;

    /// The index works on the partition of a key exactly where that key is
    /// its active key.
    proof fn lemma_keyed(&self, key: u64)
        ensures
            self.keyed_at(key) == (self.active_key() == Some(key)),
    ;

    /// Stores `value` for `key` in the active key's map, in place of what
    /// was there. Where the stored map does not decode, nothing is changed.
    fn put(&mut self, backend: &mut Backend, key: &K, value: V) -> (r: StateResult<()>)
        requires
            old(self).wf(),
            old(backend).wf(),
        ensures
            final(self).wf(),
            final(backend).wf(),
            final(backend).spec_path() == old(backend).spec_path(),
            final(backend).spec_state_id() == old(backend).spec_state_id(),
            final(self).handle_name() == old(self).handle_name(),
            final(self).active_key() == old(self).active_key(),
            match old(self).active_key() {
                Some(k) => match read_list::<(K, V)>(
                    logical(old(backend)@, old(self).pending()),
                    old(self).handle_name(),
                    key_bytes(k),
                ) {
                    Ok(pairs) => {
                        &&& r is Ok
                        &&& read_list::<(K, V)>(
                            logical(final(backend)@, final(self).pending()),
                            old(self).handle_name(),
                            key_bytes(k),
                        ) == Ok::<Seq<(K, V)>, StateError>(map_put(pairs, *key, value))
                        &&& same_elsewhere(
                            logical(final(backend)@, final(self).pending()),
                            logical(old(backend)@, old(self).pending()),
                            old(self).handle_name(),
                            key_bytes(k),
                        )
                    },
                    Err(e) => {
                        &&& r == Err::<(), StateError>(e)
                        &&& final(backend)@ == old(backend)@
                        &&& final(self).pending() == old(self).pending()
                    },
                },
                None => {
                    &&& r == Err::<(), StateError>(StateError::Index(IndexError::KeyNotSet))
                    &&& final(backend)@ == old(backend)@
                    &&& final(self).pending() == old(self).pending()
                },
            },
    ;

    /// The value of `key` in the active key's map, if there is one.
    fn get(&self, backend: &Backend, key: &K) -> (r: StateResult<Option<V>>)
        requires
            self.wf(),
            backend.wf(),
        ensures
            r == match self.active_key() {
                Some(k) => match read_list::<(K, V)>(
                    logical(backend@, self.pending()),
                    self.handle_name(),
                    key_bytes(k),
                ) {
                    Ok(pairs) => Ok(map_get(pairs, *key)),
                    Err(e) => Err(e),
                },
                None => Err(StateError::Index(IndexError::KeyNotSet)),
            },
    ;

    /// Takes the value of `key` out of the active key's map: returns what
    /// `get` would return, and where that is not an error, the map holds
    /// nothing for `key`.
    fn take(&mut self, backend: &mut Backend, key: &K) -> (r: StateResult<Option<V>>)
        requires
            old(self).wf(),
            old(backend).wf(),
        ensures
            final(self).wf(),
            final(backend).wf(),
            final(backend).spec_path() == old(backend).spec_path(),
            final(backend).spec_state_id() == old(backend).spec_state_id(),
            final(self).handle_name() == old(self).handle_name(),
            final(self).active_key() == old(self).active_key(),
            match old(self).active_key() {
                Some(k) => match read_list::<(K, V)>(
                    logical(old(backend)@, old(self).pending()),
                    old(self).handle_name(),
                    key_bytes(k),
                ) {
                    Ok(pairs) => {
                        &&& r == Ok::<Option<V>, StateError>(map_get(pairs, *key))
                        &&& read_list::<(K, V)>(
                            logical(final(backend)@, final(self).pending()),
                            old(self).handle_name(),
                            key_bytes(k),
                        ) == Ok::<Seq<(K, V)>, StateError>(map_remove(pairs, *key))
                        &&& same_elsewhere(
                            logical(final(backend)@, final(self).pending()),
                            logical(old(backend)@, old(self).pending()),
                            old(self).handle_name(),
                            key_bytes(k),
                        )
                    },
                    Err(e) => {
                        &&& r == Err::<Option<V>, StateError>(e)
                        &&& final(backend)@ == old(backend)@
                        &&& final(self).pending() == old(self).pending()
                    },
                },
                None => {
                    &&& r == Err::<Option<V>, StateError>(StateError::Index(IndexError::KeyNotSet))
                    &&& final(backend)@ == old(backend)@
                    &&& final(self).pending() == old(self).pending()
                },
            },
    ;

    /// Removes the value of `key` from the active key's map.
    fn clear(&mut self, backend: &mut Backend, key: &K) -> (r: StateResult<()>)
        requires
            old(self).wf(),
            old(backend).wf(),
        ensures
            final(self).wf(),
            final(backend).wf(),
            final(backend).spec_path() == old(backend).spec_path(),
            final(backend).spec_state_id() == old(backend).spec_state_id(),
            final(self).handle_name() == old(self).handle_name(),
            final(self).active_key() == old(self).active_key(),
            match old(self).active_key() {
                Some(k) => match read_list::<(K, V)>(
                    logical(old(backend)@, old(self).pending()),
                    old(self).handle_name(),
                    key_bytes(k),
                ) {
                    Ok(pairs) => {
                        &&& r is Ok
                        &&& read_list::<(K, V)>(
                            logical(final(backend)@, final(self).pending()),
                            old(self).handle_name(),
                            key_bytes(k),
                        ) == Ok::<Seq<(K, V)>, StateError>(map_remove(pairs, *key))
                        &&& same_elsewhere(
                            logical(final(backend)@, final(self).pending()),
                            logical(old(backend)@, old(self).pending()),
                            old(self).handle_name(),
                            key_bytes(k),
                        )
                    },
                    Err(e) => {
                        &&& r == Err::<(), StateError>(e)
                        &&& final(backend)@ == old(backend)@
                        &&& final(self).pending() == old(self).pending()
                    },
                },
                None => {
                    &&& r == Err::<(), StateError>(StateError::Index(IndexError::KeyNotSet))
                    &&& final(backend)@ == old(backend)@
                    &&& final(self).pending() == old(self).pending()
                },
            },
    ;

    /// The number of pairs in the active key's map.
    fn len(&self, backend: &Backend) -> (r: StateResult<usize>)
        requires
            self.wf(),
            backend.wf(),
        ensures
            r == match self.active_key() {
                Some(k) => read_len::<(K, V)>(
                    logical(backend@, self.pending()),
                    self.handle_name(),
                    key_bytes(k),
                ),
                None => Err(StateError::Index(IndexError::KeyNotSet)),
            },
    ;

    /// Whether the active key's map holds nothing.
    fn is_empty(&self, backend: &Backend) -> (r: StateResult<bool>)
        requires
            self.wf(),
            backend.wf(),
        ensures
            r == match self.active_key() {
                Some(k) => match read_list::<(K, V)>(
                    logical(backend@, self.pending()),
                    self.handle_name(),
                    key_bytes(k),
                ) {
                    Ok(pairs) => Ok(pairs.len() == 0),
                    Err(e) => Err(e),
                },
                None => Err(StateError::Index(IndexError::KeyNotSet)),
            },
    ;

    /// Replaces the value of `key` in the active key's map by what `f` makes
    /// of it; where there is no value, `f` gets the default. Where the stored
    /// map does not decode, `f` is not called and nothing is changed.
    fn rmw<F: FnOnce(V) -> V>(&mut self, backend: &mut Backend, key: &K, f: F) -> (r: StateResult<
        (),
    >)
        requires
            old(self).wf(),
            old(backend).wf(),
            forall|v: V| f.requires((v,)),
        ensures
            final(self).wf(),
            final(backend).wf(),
            final(backend).spec_path() == old(backend).spec_path(),
            final(backend).spec_state_id() == old(backend).spec_state_id(),
            final(self).handle_name() == old(self).handle_name(),
            final(self).active_key() == old(self).active_key(),
            match old(self).active_key() {
                Some(k) => match read_list::<(K, V)>(
                    logical(old(backend)@, old(self).pending()),
                    old(self).handle_name(),
                    key_bytes(k),
                ) {
                    Ok(pairs) => {
                        &&& r is Ok
                        &&& map_rmw_made(
                            f,
                            pairs,
                            *key,
                            read_list::<(K, V)>(
                                logical(final(backend)@, final(self).pending()),
                                old(self).handle_name(),
                                key_bytes(k),
                            ),
                        )
                        &&& same_elsewhere(
                            logical(final(backend)@, final(self).pending()),
                            logical(old(backend)@, old(self).pending()),
                            old(self).handle_name(),
                            key_bytes(k),
                        )
                    },
                    Err(e) => {
                        &&& r == Err::<(), StateError>(e)
                        &&& final(backend)@ == old(backend)@
                        &&& final(self).pending() == old(self).pending()
                    },
                },
                None => {
                    &&& r == Err::<(), StateError>(StateError::Index(IndexError::KeyNotSet))
                    &&& final(backend)@ == old(backend)@
                    &&& final(self).pending() == old(self).pending()
                },
            },
    ;
}

/// The state of one operator: the indices it is made of. The state does not
/// own the backend; every operation is handed the backend to work on.
pub trait ArconState: Sized {
    /// Whether the state is one that its operations leave behind.
    spec fn valid(&self) -> bool;

    /// The identifier under which the state's backend is kept.
    spec fn spec_state_id() -> Seq<char>;

    /// The identifier under which the state's backend is kept.
    fn state_id() -> (id: String)
        ensures
            id@ == Self::spec_state_id(),
    ;

    /// Rebuilds a state from a snapshot: restores the backend from the
    /// snapshot's image, rooted at the snapshot's directory, for this state's
    /// identifier, and hands it to `f`, which makes the state. It fails
    /// exactly where restoring the backend fails.
    fn restore<F: FnOnce(&Backend) -> Self>(snapshot: &Snapshot, f: F) -> (r: ArconResult<
        (Self, Backend),
    >)
        requires
            forall|b: &Backend| b.wf() ==> f.requires((b,)),
        ensures
            match restore_outcome(snapshot.image(), encode_utf8(Self::spec_state_id())) {
                Ok(records) => r matches Ok((state, backend)) && backend.wf() && backend.records()
                    == records && backend.spec_path() == snapshot.path()
                    && backend.spec_state_id() == Self::spec_state_id() && f.ensures(
                    (&backend,),
                    state,
                ),
                Err(e) => r matches Err(err) && err.message() == snapshot_error_text(e)@,
            },
    {
        let dir = snapshot.snapshot_path().clone();
        match Backend::restore(snapshot, dir, Self::state_id()) {
            Ok(backend) => {
                let state = f(&backend);
                Ok((state, backend))
            },
            Err(e) => Err(e.into_error()),
        }
    }

    /// What `store` holds once every write that the state's indices hold
    /// back has been written.
    spec fn persisted(&self, store: Store) -> Store;

    /// Whether every index of the state works on the partition of `key`.
    spec fn all_keyed_at(&self, key: u64) -> bool;

    /// The names of the handles of the state's indices, index by index.
    spec fn handle_names(&self) -> Seq<Seq<u8>>;

    /// Persists every index of the state: afterwards the backend holds what
    /// the state stood for, and nothing is held back. The indices keep their
    /// handles and the partition they work on.
    fn persist(&mut self, backend: &mut Backend) -> (r: ArconResult<()>)
        requires
            old(self).valid(),
            old(backend).wf(),
        ensures
            r is Ok,
            final(self).valid(),
            final(backend).wf(),
            final(self).handle_names() == old(self).handle_names(),
            forall|k: u64| #[trigger] final(self).all_keyed_at(k) == old(self).all_keyed_at(k),
            final(backend)@ == old(self).persisted(old(backend)@),
            final(self).persisted(final(backend)@) == final(backend)@,
            final(backend).spec_path() == old(backend).spec_path(),
            final(backend).spec_state_id() == old(backend).spec_state_id(),
    ;

    /// Makes `key` the active key of every index of the state: afterwards
    /// every index works on the partition of `key`. What the indices held
    /// back for the key before is written first, and the indices keep their
    /// handles.
    fn set_key(&mut self, backend: &mut Backend, key: u64)
        requires
            old(self).valid(),
            old(backend).wf(),
        ensures
            final(self).valid(),
            final(backend).wf(),
            final(self).all_keyed_at(key),
            final(self).handle_names() == old(self).handle_names(),
            final(backend)@ == old(self).persisted(old(backend)@),
            final(self).persisted(final(backend)@) == final(backend)@,
            final(backend).spec_path() == old(backend).spec_path(),
            final(backend).spec_state_id() == old(backend).spec_state_id(),
    ;

    /// The tables of the state's indices. The state is not changed: its
    /// indices keep their handles, the partition they work on, and what
    /// they hold back.
    fn tables(&mut self, backend: &Backend) -> (r: Vec<ImmutableTable>)
        requires
            old(self).valid(),
            backend.wf(),
        ensures
            final(self).valid(),
            final(self).handle_names() == old(self).handle_names(),
            forall|k: u64| #[trigger] final(self).all_keyed_at(k) == old(self).all_keyed_at(k),
            final(self).persisted(backend@) == old(self).persisted(backend@),
            !Self::spec_has_tables() ==> r@.len() == 0,
    ;

    /// The names under which the state's tables are asked for.
    fn table_ids() -> (r: Vec<String>)
        ensures
            !Self::spec_has_tables() ==> r@.len() == 0,
    ;

    /// The table that goes by the name `id`; `None` where the state has no
    /// table of that name. The state is not changed: its indices keep their
    /// handles, the partition they work on, and what they hold back.
    fn get_table(&mut self, backend: &Backend, id: &str) -> (r: ArconResult<
        Option<ImmutableTable>,
    >)
        requires
            old(self).valid(),
            backend.wf(),
        ensures
            final(self).valid(),
            final(self).handle_names() == old(self).handle_names(),
            forall|k: u64| #[trigger] final(self).all_keyed_at(k) == old(self).all_keyed_at(k),
            final(self).persisted(backend@) == old(self).persisted(backend@),
            !Self::spec_has_tables() ==> r matches Ok(None),
    ;

    /// Whether the state has any table.
    spec fn spec_has_tables() -> bool;

    /// Whether the state has any table.
    fn has_tables() -> (r: bool)
        ensures
            r == Self::spec_has_tables(),
    ;
}

/// The state of an operator that keeps no state.
pub struct EmptyState;

/// The identifier of the empty state.
pub open spec fn empty_state_id() -> &'static str {
    "!"
}

impl ArconState for EmptyState {
    open spec fn valid(&self) -> bool {
        true
    }

    open spec fn spec_state_id() -> Seq<char> {
        empty_state_id()@
    }

    fn state_id() -> (id: String) {
        "!".to_owned()
    }

    open spec fn persisted(&self, store: Store) -> Store {
        store
    }

    open spec fn all_keyed_at(&self, key: u64) -> bool {
        true
    }

    open spec fn handle_names(&self) -> Seq<Seq<u8>> {
        Seq::empty()
    }

    fn persist(&mut self, backend: &mut Backend) -> (r: ArconResult<()>) {
        Ok(())
    }

    fn set_key(&mut self, backend: &mut Backend, key: u64) {
    }

    fn tables(&mut self, backend: &Backend) -> (r: Vec<ImmutableTable>) {
        Vec::new()
    }

    fn table_ids() -> (r: Vec<String>) {
        Vec::new()
    }

    fn get_table(&mut self, backend: &Backend, id: &str) -> (r: ArconResult<
        Option<ImmutableTable>,
    >) {
        Ok(None)
    }

    open spec fn spec_has_tables() -> bool {
        false
    }

    fn has_tables() -> (r: bool) {
        false
    }
}

impl IndexOps for EmptyState {
    open spec fn wf(&self) -> bool {
        true
    }

    open spec fn handle_name(&self) -> Seq<u8> {
        Seq::empty()
    }

    open spec fn pending(&self) -> Option<Write> {
        None
    }

    open spec fn keyed_at(&self, key: u64) -> bool {
        true
    }

    fn persist(&mut self, backend: &mut Backend) -> (r: ArconResult<()>) {
        Ok(())
    }

    fn set_key(&mut self, backend: &mut Backend, key: u64) {
    }

    /// The empty state has no table: the answer is always `Ok(None)`.
    fn table(&mut self, backend: &Backend) -> (r: ArconResult<Option<ImmutableTable>>)
        ensures
            r matches Ok(None),
    {
        Ok(None)
    }
}

} // verus!
