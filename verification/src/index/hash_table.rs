//! Map indices: a map per key of the runtime.
//!
//! The map of a key is stored as one list of pairs under that key, so the
//! maps of two keys share nothing. `HashTable` reads and writes the stored
//! list on every call. `EagerHashTable` keeps the map of the active key in
//! memory once it has been written to, and stores it when the key changes or
//! on `persist`.

use crate::backend::{Backend, Handle};
use crate::codec::{frames_encoding, views, IndexValue};
use crate::error::{ArconResult, IndexError, StateError, StateResult};
use crate::index::appender::{lemma_rows_decode, load_list, rows_hold, store_list};
use crate::index::{
    first_of, is_first, key_bytes, key_to_bytes, logical, map_get, map_put, map_remove,
    map_rmw_made, or_default, read_list, same_elsewhere, IndexOps, MapIndex, Store, Write,
};
use crate::table::{ImmutableTable, TableView};
use core::marker::PhantomData;
use vstd::prelude::*;

verus! {

/// A place that is the first to hold a key is the place that `first_of` names.
pub proof fn lemma_first<K, V>(pairs: Seq<(K, V)>, key: K, i: int)
    requires
        is_first(pairs, key, i),
    ensures
        first_of(pairs, key) == Some(i),
{
    let c = choose|c: int| is_first(pairs, key, c);
    if c < i {
        assert(pairs[c].0 != key);
    } else if i < c {
        assert(pairs[i].0 != key);
    }
}

/// Where no place holds a key, `first_of` names none.
pub proof fn lemma_absent<K, V>(pairs: Seq<(K, V)>, key: K)
    requires
        forall|j: int| 0 <= j < pairs.len() ==> (#[trigger] pairs[j]).0 != key,
    ensures
        first_of(pairs, key) is None,
{
    if exists|i: int| is_first(pairs, key, i) {
        let c = choose|c: int| is_first(pairs, key, c);
        assert(pairs[c].0 != key);
    }
}

/// Where `first_of` names no place, no place before `n` holds the key.
pub proof fn lemma_none_before<K, V>(pairs: Seq<(K, V)>, key: K, n: int)
    requires
        first_of(pairs, key) is None,
        0 <= n <= pairs.len(),
    ensures
        forall|j: int| 0 <= j < n ==> (#[trigger] pairs[j]).0 != key,
    decreases n,
{
    if n > 0 {
        lemma_none_before(pairs, key, n - 1);
        if pairs[n - 1].0 == key {
            assert(is_first(pairs, key, n - 1));
        }
    }
}

/// The place of `key` among `pairs`: the first pair that holds it.
fn find_pair<K: IndexValue, V: IndexValue>(pairs: &Vec<(K, V)>, key: &K) -> (r: Option<usize>)
    ensures
        match r {
            Some(i) => first_of(pairs@, *key) == Some(i as int) && i < pairs@.len(),
            None => first_of(pairs@, *key) is None,
        },
{
    let mut i: usize = 0;
    while i < pairs.len()
        invariant
            i <= pairs@.len(),
            forall|j: int| 0 <= j < i ==> (#[trigger] pairs@[j]).0 != *key,
        decreases pairs@.len() - i,
    {
        if pairs[i].0.same(key) {
            proof {
                lemma_first(pairs@, *key, i as int);
            }
            return Some(i);
        }
        i += 1;
    }
    proof {
        lemma_absent(pairs@, *key);
    }
    None
}

/// Puts `value` for `key` into a map held in memory.
fn put_pair<K: IndexValue, V: IndexValue>(
    pairs: &mut Vec<(K, V)>,
    rows: &mut Vec<Vec<u8>>,
    key: &K,
    value: V,
)
    requires
        rows_hold(old(rows)@, old(pairs)@),
    ensures
        rows_hold(final(rows)@, final(pairs)@),
        final(pairs)@ == map_put(old(pairs)@, *key, value),
{
    let pair = (key.duplicate(), value);
    let bytes = pair.encode();
    proof {
        assert(bytes.len() <= usize::MAX);
        <(K, V) as IndexValue>::lemma_round_trip(pair);
    }
    match find_pair(pairs, key) {
        Some(i) => {
            pairs[i] = pair;
            rows[i] = bytes;
        },
        None => {
            pairs.push(pair);
            rows.push(bytes);
        },
    }
}

/// Takes the pair of `key` out of a map held in memory.
fn remove_pair<K: IndexValue, V: IndexValue>(
    pairs: &mut Vec<(K, V)>,
    rows: &mut Vec<Vec<u8>>,
    key: &K,
) -> (r: Option<V>)
    requires
        rows_hold(old(rows)@, old(pairs)@),
    ensures
        rows_hold(final(rows)@, final(pairs)@),
        final(pairs)@ == map_remove(old(pairs)@, *key),
        r == map_get(old(pairs)@, *key),
{
    match find_pair(pairs, key) {
        Some(i) => {
            let pair = pairs.remove(i);
            rows.remove(i);
            Some(pair.1)
        },
        None => None,
    }
}

/// The value of `key` in a map held in memory.
fn get_pair<K: IndexValue, V: IndexValue>(pairs: &Vec<(K, V)>, key: &K) -> (r: Option<V>)
    ensures
        r == map_get(pairs@, *key),
{
    match find_pair(pairs, key) {
        Some(i) => Some(pairs[i].1.duplicate()),
        None => None,
    }
}

/// The table of a map: a column of keys and a column of values, pair by pair.
pub open spec fn map_table<K: IndexValue, V: IndexValue>(
    name: Seq<u8>,
    pairs: Seq<(K, V)>,
) -> TableView {
    TableView {
        name,
        schema: seq!["key"@, "value"@],
        columns: seq![
            Seq::new(pairs.len(), |i: int| pairs[i].0.encoding()),
            Seq::new(pairs.len(), |i: int| pairs[i].1.encoding()),
        ],
    }
}

/// What `table` gives for a map index: the table of the map read for the
/// active key, or the error of that read.
pub open spec fn map_table_result<K: IndexValue, V: IndexValue>(
    read: StateResult<Seq<(K, V)>>,
    name: Seq<u8>,
    r: ArconResult<Option<ImmutableTable>>,
) -> bool {
    match read {
        Ok(pairs) => r matches Ok(Some(t)) && t@ == map_table(name, pairs),
        Err(e) => r matches Err(err) && err.message() == crate::error::state_error_text(e)@,
    }
}

fn make_map_table<K: IndexValue, V: IndexValue>(handle: &Handle, pairs: &Vec<(K, V)>) -> (t:
    ImmutableTable)
    ensures
        t@ == map_table(handle@, pairs@),
{
    let mut keys: Vec<Vec<u8>> = Vec::new();
    let mut values: Vec<Vec<u8>> = Vec::new();
    let mut i: usize = 0;
    while i < pairs.len()
        invariant
            i <= pairs@.len(),
            keys@.len() == i,
            values@.len() == i,
            forall|j: int| 0 <= j < i ==> (#[trigger] keys@[j])@ == pairs@[j].0.encoding(),
            forall|j: int| 0 <= j < i ==> (#[trigger] values@[j])@ == pairs@[j].1.encoding(),
        decreases pairs@.len() - i,
    {
        keys.push(pairs[i].0.encode());
        values.push(pairs[i].1.encode());
        i += 1;
    }
    proof {
        assert(views(keys@) =~= Seq::new(pairs@.len(), |i: int| pairs@[i].0.encoding()));
        assert(views(values@) =~= Seq::new(pairs@.len(), |i: int| pairs@[i].1.encoding()));
    }
    let name = handle.duplicate().into_name();
    ImmutableTable::pair(name, "key", keys, "value", values)
}

/// A map index that goes to the backend on every call.
pub struct HashTable<K: IndexValue, V: IndexValue> {
    handle: Handle,
    key: Option<u64>,
    marker: PhantomData<(K, V)>,
}

impl<K: IndexValue, V: IndexValue> HashTable<K, V> {
    /// An index that keeps its maps under the handle `name`. No key is set.
    pub fn new(name: &str) -> (idx: Self)
        ensures
            idx.wf(),
            idx.active_key() is None,
            idx.pending() is None,
            idx.handle_name() == vstd::utf8::encode_utf8(name@),
    {
        HashTable { handle: Handle::new(name), key: None, marker: PhantomData }
    }
}

impl<K: IndexValue, V: IndexValue> IndexOps for HashTable<K, V> {
    open spec fn wf(&self) -> bool {
        true
    }

    closed spec fn handle_name(&self) -> Seq<u8> {
        self.handle@
    }

    open spec fn pending(&self) -> Option<Write> {
        None
    }

    closed spec fn keyed_at(&self, key: u64) -> bool {
        self.key == Some(key)
    }

    fn persist(&mut self, backend: &mut Backend) -> (r: ArconResult<()>)
        ensures
            final(self).active_key() == old(self).active_key(),
    {
        Ok(())
    }

    fn set_key(&mut self, backend: &mut Backend, key: u64)
        ensures
            final(self).active_key() == Some(key),
    {
        self.key = Some(key);
    }

    fn table(&mut self, backend: &Backend) -> (r: ArconResult<Option<ImmutableTable>>)
        ensures
            final(self).active_key() == old(self).active_key(),
            map_table_result(
                match old(self).active_key() {
                    Some(k) => read_list::<(K, V)>(
                        backend@,
                        old(self).handle_name(),
                        key_bytes(k),
                    ),
                    None => Err(StateError::Index(IndexError::KeyNotSet)),
                },
                old(self).handle_name(),
                r,
            ),
    {
        match self.key {
            None => Err(StateError::Index(IndexError::KeyNotSet).into_error()),
            Some(k) => {
                let kb = key_to_bytes(k);
                match load_list::<(K, V)>(backend, &self.handle, kb.as_slice()) {
                    Err(e) => Err(e.into_error()),
                    Ok((pairs, rows)) => Ok(Some(make_map_table(&self.handle, &pairs))),
                }
            },
        }
    }
}

impl<K: IndexValue, V: IndexValue> MapIndex<K, V> for HashTable<K, V> {
    closed spec fn active_key(&self) -> Option<u64> {
        self.key
    }

    proof fn lemma_keyed(&self, key: u64) {
    }

    fn put(&mut self, backend: &mut Backend, key: &K, value: V) -> (r: StateResult<()>) {
        match self.key {
            None => Err(StateError::Index(IndexError::KeyNotSet)),
            Some(k) => {
                let kb = key_to_bytes(k);
                let (pairs, rows) = load_list::<(K, V)>(backend, &self.handle, kb.as_slice())?;
                let mut pairs = pairs;
                let mut rows = rows;
                put_pair(&mut pairs, &mut rows, key, value);
                store_list::<(K, V)>(backend, &self.handle, kb.as_slice(), &rows, Ghost(pairs@));
                Ok(())
            },
        }
    }

    fn get(&self, backend: &Backend, key: &K) -> (r: StateResult<Option<V>>) {
        match self.key {
            None => Err(StateError::Index(IndexError::KeyNotSet)),
            Some(k) => {
                let kb = key_to_bytes(k);
                let (pairs, rows) = load_list::<(K, V)>(backend, &self.handle, kb.as_slice())?;
                Ok(get_pair(&pairs, key))
            },
        }
    }

    fn take(&mut self, backend: &mut Backend, key: &K) -> (r: StateResult<Option<V>>) {
        match self.key {
            None => Err(StateError::Index(IndexError::KeyNotSet)),
            Some(k) => {
                let kb = key_to_bytes(k);
                let (pairs, rows) = load_list::<(K, V)>(backend, &self.handle, kb.as_slice())?;
                let mut pairs = pairs;
                let mut rows = rows;
                let found = remove_pair(&mut pairs, &mut rows, key);
                store_list::<(K, V)>(backend, &self.handle, kb.as_slice(), &rows, Ghost(pairs@));
                Ok(found)
            },
        }
    }

    fn clear(&mut self, backend: &mut Backend, key: &K) -> (r: StateResult<()>) {
        match self.take(backend, key) {
            Ok(_) => Ok(()),
            Err(e) => Err(e),
        }
    }

    fn len(&self, backend: &Backend) -> (r: StateResult<usize>) {
        match self.key {
            None => Err(StateError::Index(IndexError::KeyNotSet)),
            Some(k) => {
                let kb = key_to_bytes(k);
                let (pairs, rows) = load_list::<(K, V)>(backend, &self.handle, kb.as_slice())?;
                Ok(pairs.len())
            },
        }
    }

    fn is_empty(&self, backend: &Backend) -> (r: StateResult<bool>) {
        match self.key {
            None => Err(StateError::Index(IndexError::KeyNotSet)),
            Some(k) => {
                let kb = key_to_bytes(k);
                let (pairs, rows) = load_list::<(K, V)>(backend, &self.handle, kb.as_slice())?;
                Ok(pairs.len() == 0)
            },
        }
    }

    fn rmw<F: FnOnce(V) -> V>(&mut self, backend: &mut Backend, key: &K, f: F) -> (r: StateResult<
        (),
    >) {
        let k = match self.key {
            None => {
                return Err(StateError::Index(IndexError::KeyNotSet));
            },
            Some(k) => k,
        };
        let kb = key_to_bytes(k);
        let (pairs, rows) = match load_list::<(K, V)>(backend, &self.handle, kb.as_slice()) {
            Ok(loaded) => loaded,
            Err(e) => {
                return Err(e);
            },
        };
        let mut pairs = pairs;
        let mut rows = rows;
        let ghost before = pairs@;
        let start = match get_pair(&pairs, key) {
            Some(v) => v,
            None => V::initial(),
        };
        let ghost begun = start;
        let made = f(start);
        let ghost done = made;
        put_pair(&mut pairs, &mut rows, key, made);
        store_list::<(K, V)>(backend, &self.handle, kb.as_slice(), &rows, Ghost(pairs@));
        proof {
            let was = logical(old(backend)@, old(self).pending());
            let now = logical(backend@, self.pending());
            assert(read_list::<(K, V)>(was, old(self).handle_name(), key_bytes(k)) == Ok::<
                Seq<(K, V)>,
                StateError,
            >(before));
            assert(begun == or_default(map_get(before, *key)));
            assert(f.ensures((or_default(map_get(before, *key)),), done));
            assert(read_list::<(K, V)>(now, old(self).handle_name(), key_bytes(k)) == Ok::<
                Seq<(K, V)>,
                StateError,
            >(map_put(before, *key, done)));
            assert(map_rmw_made(
                f,
                before,
                *key,
                read_list::<(K, V)>(now, old(self).handle_name(), key_bytes(k)),
            ));
            assert(same_elsewhere(now, was, old(self).handle_name(), key_bytes(k)));
        }
        Ok(())
    }
}

/// What an eager map index holds back for the active key: the map, with the
/// bytes of each pair.
struct HeldMap<K, V> {
    pairs: Vec<(K, V)>,
    rows: Vec<Vec<u8>>,
}

/// A map index that keeps the map of the active key in memory.
pub struct EagerHashTable<K: IndexValue, V: IndexValue> {
    handle: Handle,
    key: Option<u64>,
    held: Option<HeldMap<K, V>>,
}

impl<K: IndexValue, V: IndexValue> EagerHashTable<K, V> {
    /// An index that keeps its maps under the handle `name`. No key is set.
    pub fn new(name: &str) -> (idx: Self)
        ensures
            idx.wf(),
            idx.active_key() is None,
            idx.pending() is None,
            idx.handle_name() == vstd::utf8::encode_utf8(name@),
    {
        EagerHashTable { handle: Handle::new(name), key: None, held: None }
    }

    fn flush(&mut self, backend: &mut Backend)
        requires
            old(self).wf(),
            old(backend).wf(),
        ensures
            final(self).wf(),
            final(backend).wf(),
            final(self).handle == old(self).handle,
            final(self).key == old(self).key,
            final(self).held is None,
            final(backend)@ == logical(old(backend)@, old(self).pending()),
            final(backend).spec_path() == old(backend).spec_path(),
            final(backend).spec_state_id() == old(backend).spec_state_id(),
    {
        let held = self.held.take();
        match (self.key, held) {
            (Some(k), Some(map)) => {
                let kb = key_to_bytes(k);
                store_list::<(K, V)>(
                    backend,
                    &self.handle,
                    kb.as_slice(),
                    &map.rows,
                    Ghost(map.pairs@),
                );
            },
            _ => {},
        }
    }

    /// What the held map says of the active key's map, if one is held.
    proof fn lemma_held(&self, store: Store)
        requires
            self.wf(),
            self.held is Some,
        ensures
            self.key is Some,
            read_list::<(K, V)>(
                logical(store, self.pending()),
                self.handle@,
                key_bytes(self.key.unwrap()),
            ) == Ok::<Seq<(K, V)>, StateError>(self.held.unwrap().pairs@),
    {
        lemma_rows_decode(self.held.unwrap().rows@, self.held.unwrap().pairs@);
    }

    /// Brings the map of the active key into memory, where it is not there
    /// yet. What the index stands for is not changed.
    fn load(&mut self, backend: &Backend) -> (r: StateResult<()>)
        requires
            old(self).wf(),
            backend.wf(),
        ensures
            final(self).wf(),
            final(self).handle == old(self).handle,
            final(self).key == old(self).key,
            match old(self).key {
                Some(k) => match read_list::<(K, V)>(
                    logical(backend@, old(self).pending()),
                    old(self).handle@,
                    key_bytes(k),
                ) {
                    Ok(pairs) => {
                        &&& r is Ok
                        &&& final(self).held is Some
                        &&& final(self).held.unwrap().pairs@ == pairs
                        &&& same_elsewhere(
                            logical(backend@, final(self).pending()),
                            logical(backend@, old(self).pending()),
                            old(self).handle@,
                            key_bytes(k),
                        )
                    },
                    Err(e) => r == Err::<(), StateError>(e) && final(self).held == old(self).held,
                },
                None => r == Err::<(), StateError>(StateError::Index(IndexError::KeyNotSet))
                    && final(self).held == old(self).held,
            },
    {
        match self.key {
            None => Err(StateError::Index(IndexError::KeyNotSet)),
            Some(k) => {
                if self.held.is_some() {
                    proof {
                        self.lemma_held(backend@);
                    }
                    return Ok(());
                }
                let kb = key_to_bytes(k);
                let (pairs, rows) = load_list::<(K, V)>(backend, &self.handle, kb.as_slice())?;
                self.held = Some(HeldMap { pairs, rows });
                Ok(())
            },
        }
    }
}

impl<K: IndexValue, V: IndexValue> IndexOps for EagerHashTable<K, V> {
    closed spec fn wf(&self) -> bool {
        match self.held {
            Some(map) => self.key is Some && rows_hold(map.rows@, map.pairs@),
            None => true,
        }
    }

    closed spec fn handle_name(&self) -> Seq<u8> {
        self.handle@
    }

    closed spec fn pending(&self) -> Option<Write> {
        match (self.key, self.held) {
            (Some(k), Some(map)) => Some(
                Write {
                    handle: self.handle@,
                    key: key_bytes(k),
                    bytes: Some(frames_encoding(views(map.rows@))),
                },
            ),
            _ => None,
        }
    }

    closed spec fn keyed_at(&self, key: u64) -> bool {
        self.key == Some(key)
    }

    fn persist(&mut self, backend: &mut Backend) -> (r: ArconResult<()>)
        ensures
            final(self).active_key() == old(self).active_key(),
    {
        self.flush(backend);
        Ok(())
    }

    fn set_key(&mut self, backend: &mut Backend, key: u64)
        ensures
            final(self).active_key() == Some(key),
    {
        self.flush(backend);
        self.key = Some(key);
    }

    fn table(&mut self, backend: &Backend) -> (r: ArconResult<Option<ImmutableTable>>)
        ensures
            final(self).active_key() == old(self).active_key(),
            map_table_result(
                match old(self).active_key() {
                    Some(k) => read_list::<(K, V)>(
                        logical(backend@, old(self).pending()),
                        old(self).handle_name(),
                        key_bytes(k),
                    ),
                    None => Err(StateError::Index(IndexError::KeyNotSet)),
                },
                old(self).handle_name(),
                r,
            ),
    {
        match self.key {
            None => Err(StateError::Index(IndexError::KeyNotSet).into_error()),
            Some(k) => match &self.held {
                Some(map) => {
                    proof {
                        self.lemma_held(backend@);
                    }
                    Ok(Some(make_map_table(&self.handle, &map.pairs)))
                },
                None => {
                    let kb = key_to_bytes(k);
                    match load_list::<(K, V)>(backend, &self.handle, kb.as_slice()) {
                        Err(e) => Err(e.into_error()),
                        Ok((pairs, rows)) => Ok(Some(make_map_table(&self.handle, &pairs))),
                    }
                },
            },
        }
    }
}

impl<K: IndexValue, V: IndexValue> MapIndex<K, V> for EagerHashTable<K, V> {
    closed spec fn active_key(&self) -> Option<u64> {
        self.key
    }

    proof fn lemma_keyed(&self, key: u64) {
    }

    fn put(&mut self, backend: &mut Backend, key: &K, value: V) -> (r: StateResult<()>)
        ensures
            final(backend)@ == old(backend)@,
    {
        self.load(backend)?;
        let mut map = self.held.take().unwrap();
        put_pair(&mut map.pairs, &mut map.rows, key, value);
        self.held = Some(map);
        proof {
            self.lemma_held(backend@);
        }
        Ok(())
    }

    fn get(&self, backend: &Backend, key: &K) -> (r: StateResult<Option<V>>) {
        match self.key {
            None => Err(StateError::Index(IndexError::KeyNotSet)),
            Some(k) => match &self.held {
                Some(map) => {
                    proof {
                        self.lemma_held(backend@);
                    }
                    Ok(get_pair(&map.pairs, key))
                },
                None => {
                    let kb = key_to_bytes(k);
                    let (pairs, rows) = load_list::<(K, V)>(backend, &self.handle, kb.as_slice())?;
                    Ok(get_pair(&pairs, key))
                },
            },
        }
    }

    fn take(&mut self, backend: &mut Backend, key: &K) -> (r: StateResult<Option<V>>)
        ensures
            final(backend)@ == old(backend)@,
    {
        self.load(backend)?;
        let mut map = self.held.take().unwrap();
        let found = remove_pair(&mut map.pairs, &mut map.rows, key);
        self.held = Some(map);
        proof {
            self.lemma_held(backend@);
        }
        Ok(found)
    }

    fn clear(&mut self, backend: &mut Backend, key: &K) -> (r: StateResult<()>)
        ensures
            final(backend)@ == old(backend)@,
    {
        match self.take(backend, key) {
            Ok(_) => Ok(()),
            Err(e) => Err(e),
        }
    }

    fn len(&self, backend: &Backend) -> (r: StateResult<usize>) {
        match self.key {
            None => Err(StateError::Index(IndexError::KeyNotSet)),
            Some(k) => match &self.held {
                Some(map) => {
                    proof {
                        self.lemma_held(backend@);
                    }
                    Ok(map.pairs.len())
                },
                None => {
                    let kb = key_to_bytes(k);
                    let (pairs, rows) = load_list::<(K, V)>(backend, &self.handle, kb.as_slice())?;
                    Ok(pairs.len())
                },
            },
        }
    }

    fn is_empty(&self, backend: &Backend) -> (r: StateResult<bool>) {
        match self.key {
            None => Err(StateError::Index(IndexError::KeyNotSet)),
            Some(k) => match &self.held {
                Some(map) => {
                    proof {
                        self.lemma_held(backend@);
                    }
                    Ok(map.pairs.len() == 0)
                },
                None => {
                    let kb = key_to_bytes(k);
                    let (pairs, rows) = load_list::<(K, V)>(backend, &self.handle, kb.as_slice())?;
                    Ok(pairs.len() == 0)
                },
            },
        }
    }

    fn rmw<F: FnOnce(V) -> V>(&mut self, backend: &mut Backend, key: &K, f: F) -> (r: StateResult<
        (),
    >)
        ensures
            final(backend)@ == old(backend)@,
    {
        self.load(backend)?;
        let mut map = self.held.take().unwrap();
        let ghost before = map.pairs@;
        let start = match get_pair(&map.pairs, key) {
            Some(v) => v,
            None => V::initial(),
        };
        let made = f(start);
        let ghost done = made;
        put_pair(&mut map.pairs, &mut map.rows, key, made);
        self.held = Some(map);
        proof {
            self.lemma_held(backend@);
            assert(f.ensures((or_default(map_get(before, *key)),), done));
            assert(map_rmw_made(
                f,
                before,
                *key,
                read_list::<(K, V)>(
                    logical(backend@, self.pending()),
                    self.handle_name(),
                    key_bytes(self.key.unwrap()),
                ),
            ));
        }
        Ok(())
    }
}

} // verus!
