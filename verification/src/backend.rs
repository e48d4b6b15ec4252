//! The storage backend: byte strings kept under a handle's name and a key.

use crate::codec::{copy_range, frames_decoding, max_frame_len, same_bytes, views};
use crate::error::SnapshotError;
use crate::snapshot::{
    decode_image, decode_record, encode_image, encode_record, holds_records, image_decoding,
    image_encoding, image_frames, lemma_image_round_trip, record_decoding, record_encoding,
    records_in, Snapshot,
};
use vstd::prelude::*;
use vstd::utf8::encode_utf8;
use vstd::string::StringSliceAdditionalSpecFns;

verus! {

/// What a backend keeps for one slot: the name of the handle it belongs to,
/// the key within that handle, and the stored bytes.
pub ghost struct Record {
    pub handle: Seq<u8>,
    pub key: Seq<u8>,
    pub value: Seq<u8>,
}

/// Whether no two records share a handle and a key.
pub open spec fn distinct_slots(records: Seq<Record>) -> bool {
    forall|i: int, j: int|
        0 <= i < j < records.len() ==> !(#[trigger] records[i].handle == #[trigger] records[j].handle
            && records[i].key == records[j].key)
}

/// Whether some record is kept under `handle` and `key`.
pub open spec fn holds(records: Seq<Record>, handle: Seq<u8>, key: Seq<u8>) -> bool {
    exists|i: int| 0 <= i < records.len() && at_slot(#[trigger] records[i], handle, key)
}

/// Whether `record` is kept under `handle` and `key`.
pub open spec fn at_slot(record: Record, handle: Seq<u8>, key: Seq<u8>) -> bool {
    record.handle == handle && record.key == key
}

/// The place of a record that is kept under `handle` and `key`.
pub open spec fn position(records: Seq<Record>, handle: Seq<u8>, key: Seq<u8>) -> int {
    choose|i: int| 0 <= i < records.len() && at_slot(#[trigger] records[i], handle, key)
}

/// The stored bytes, by handle name and key.
pub open spec fn contents(records: Seq<Record>) -> Map<(Seq<u8>, Seq<u8>), Seq<u8>> {
    Map::new(
        |slot: (Seq<u8>, Seq<u8>)| holds(records, slot.0, slot.1),
        |slot: (Seq<u8>, Seq<u8>)| records[position(records, slot.0, slot.1)].value,
    )
}

/// With distinct slots, the record at place `i` is the one found under its
/// handle and key.
pub proof fn lemma_position(records: Seq<Record>, i: int)
    requires
        distinct_slots(records),
        0 <= i < records.len(),
    ensures
        holds(records, records[i].handle, records[i].key),
        position(records, records[i].handle, records[i].key) == i,
        contents(records).contains_key((records[i].handle, records[i].key)),
        contents(records)[(records[i].handle, records[i].key)] == records[i].value,
{
    assert(at_slot(records[i], records[i].handle, records[i].key));
    let p = position(records, records[i].handle, records[i].key);
    assert(at_slot(records[p], records[i].handle, records[i].key));
    if p < i {
        assert(records[p].handle == records[i].handle);
    } else if i < p {
        assert(records[i].handle == records[p].handle);
    }
}

/// Adding a record under a free slot adds that slot to the contents.
pub proof fn lemma_contents_push(records: Seq<Record>, record: Record)
    requires
        distinct_slots(records),
        !holds(records, record.handle, record.key),
    ensures
        distinct_slots(records.push(record)),
        contents(records.push(record)) == contents(records).insert(
            (record.handle, record.key),
            record.value,
        ),
{
    let after = records.push(record);
    assert forall|i: int, j: int| 0 <= i < j < after.len() implies !(#[trigger] after[i].handle
        == #[trigger] after[j].handle && after[i].key == after[j].key) by {
        if j == records.len() {
            assert(!at_slot(records[i], record.handle, record.key));
        }
    }
    let want = contents(records).insert((record.handle, record.key), record.value);
    assert forall|slot: (Seq<u8>, Seq<u8>)| contents(after).contains_key(slot) implies (
    #[trigger] want.contains_key(slot)) by {
        let p = position(after, slot.0, slot.1);
        if p < records.len() {
            assert(at_slot(records[p], slot.0, slot.1));
        }
    }
    assert forall|slot: (Seq<u8>, Seq<u8>)| #[trigger] want.contains_key(slot) implies contents(
        after,
    ).contains_key(slot) by {
        if slot == (record.handle, record.key) {
            assert(at_slot(after[records.len() as int], slot.0, slot.1));
        } else {
            let p = position(records, slot.0, slot.1);
            assert(at_slot(after[p], slot.0, slot.1));
        }
    }
    assert forall|slot: (Seq<u8>, Seq<u8>)| #[trigger] want.contains_key(slot) implies contents(
        after,
    )[slot] == want[slot] by {
        if slot == (record.handle, record.key) {
            lemma_position(after, records.len() as int);
        } else {
            let p = position(records, slot.0, slot.1);
            lemma_position(records, p);
            lemma_position(after, p);
        }
    }
    assert(contents(after) =~= want);
}

/// Taking out the record at place `i` takes its slot out of the contents.
pub proof fn lemma_contents_remove(records: Seq<Record>, i: int)
    requires
        distinct_slots(records),
        0 <= i < records.len(),
    ensures
        distinct_slots(records.remove(i)),
        contents(records.remove(i)) == contents(records).remove(
            (records[i].handle, records[i].key),
        ),
{
    let after = records.remove(i);
    assert forall|a: int, b: int| 0 <= a < b < after.len() implies !(#[trigger] after[a].handle
        == #[trigger] after[b].handle && after[a].key == after[b].key) by {
        let a0 = if a < i { a } else { a + 1 };
        let b0 = if b < i { b } else { b + 1 };
        assert(after[a] == records[a0]);
        assert(after[b] == records[b0]);
    }
    let gone = (records[i].handle, records[i].key);
    let want = contents(records).remove(gone);
    assert forall|slot: (Seq<u8>, Seq<u8>)| contents(after).contains_key(slot) implies (
    #[trigger] want.contains_key(slot)) by {
        let p = position(after, slot.0, slot.1);
        let p0 = if p < i { p } else { p + 1 };
        assert(after[p] == records[p0]);
        assert(at_slot(records[p0], slot.0, slot.1));
        if slot == gone {
            if p0 < i {
                assert(records[p0].handle == records[i].handle);
            } else {
                assert(records[i].handle == records[p0].handle);
            }
        }
    }
    assert forall|slot: (Seq<u8>, Seq<u8>)| #[trigger] want.contains_key(slot) implies contents(
        after,
    ).contains_key(slot) && contents(after)[slot] == want[slot] by {
        let p = position(records, slot.0, slot.1);
        lemma_position(records, p);
        let q = if p < i { p } else { p - 1 };
        assert(after[q] == records[p]);
        assert(at_slot(after[q], slot.0, slot.1));
        lemma_position(after, q);
    }
    assert(contents(after) =~= want);
}

/// The name of the handle of one field of a state: the state's identifier, a
/// slash, and the field's name. Within one state the names of the fields tell
/// the handles apart.
pub open spec fn field_name(state_id: Seq<char>, field: Seq<char>) -> Seq<char> {
    state_id + "/"@ + field
}

/// Makes the name of the handle of one field of a state.
pub fn make_field_name(state_id: &str, field: &str) -> (name: String)
    ensures
        name@ == field_name(state_id@, field@),
{
    let mut name = state_id.to_owned();
    name.append("/");
    name.append(field);
    name
}

/// The name under which an index keeps its data in a backend.
#[derive(Debug)]
pub struct Handle {
    name: Vec<u8>,
}

impl View for Handle {
    type V = Seq<u8>;

    closed spec fn view(&self) -> Seq<u8> {
        self.name@
    }
}

impl Handle {
    /// The handle named by the bytes of `name`.
    pub fn new(name: &str) -> (h: Handle)
        ensures
            h@ == name.spec_bytes(),
    {
        let bytes = name.as_bytes();
        let name = copy_range(bytes, 0, bytes.len());
        assert(name@ =~= bytes@);
        Handle { name }
    }

    /// The bytes of the handle's name.
    pub fn name(&self) -> (r: &Vec<u8>)
        ensures
            r@ == self@,
    {
        &self.name
    }

    /// The bytes of the handle's name, given away.
    pub fn into_name(self) -> (r: Vec<u8>)
        ensures
            r@ == self@,
    {
        self.name
    }

    /// A second handle of the same name.
    pub fn duplicate(&self) -> (h: Handle)
        ensures
            h@ == self@,
    {
        let name = copy_range(self.name.as_slice(), 0, self.name.len());
        assert(name@ =~= self.name@);
        Handle { name }
    }
}

#[derive(Debug)]
struct Entry {
    handle: Vec<u8>,
    key: Vec<u8>,
    value: Vec<u8>,
}

impl Entry {
    spec fn record(self) -> Record {
        Record { handle: self.handle@, key: self.key@, value: self.value@ }
    }
}

spec fn records_of(entries: Seq<Entry>) -> Seq<Record> {
    Seq::new(entries.len(), |i: int| entries[i].record())
}

/// A keyed byte store that lives in memory. It is rooted at a directory and
/// carries the identifier of the state it holds; both are plain names here,
/// and whoever writes a checkpoint to disk uses them.
#[derive(Debug)]
pub struct Backend {
    path: String,
    state_id: String,
    entries: Vec<Entry>,
}

impl View for Backend {
    type V = Map<(Seq<u8>, Seq<u8>), Seq<u8>>;

    /// The stored bytes, by handle name and key.
    closed spec fn view(&self) -> Map<(Seq<u8>, Seq<u8>), Seq<u8>> {
        contents(self.records())
    }
}

impl Backend {
    /// The records in the order in which a checkpoint writes them.
    pub closed spec fn records(&self) -> Seq<Record> {
        records_of(self.entries@)
    }

    /// The directory the backend is rooted at.
    pub closed spec fn spec_path(&self) -> Seq<char> {
        self.path@
    }

    /// The identifier of the state that the backend holds.
    pub closed spec fn spec_state_id(&self) -> Seq<char> {
        self.state_id@
    }

    /// Whether no two records share a slot. Every backend that this module
    /// hands out is well-formed.
    pub closed spec fn wf(&self) -> bool {
        distinct_slots(records_of(self.entries@))
    }

    /// The bytes of the state's identifier, as a checkpoint writes them.
    pub open spec fn state_id_bytes(&self) -> Seq<u8> {
        encode_utf8(self.spec_state_id())
    }

    /// In a well-formed backend no two records share a slot, and the view is
    /// the contents of the records.
    pub proof fn lemma_wf(&self)
        requires
            self.wf(),
        ensures
            distinct_slots(self.records()),
            self@ == contents(self.records()),
    {
    }

    /// A fresh, empty store rooted at `path` for the state `state_id`.
    pub fn create(path: String, state_id: String) -> (b: Backend)
        ensures
            b@ == Map::<(Seq<u8>, Seq<u8>), Seq<u8>>::empty(),
            b.records() == Seq::<Record>::empty(),
            b.spec_path() == path@,
            b.spec_state_id() == state_id@,
            b.wf(),
    {
        let b = Backend { path, state_id, entries: Vec::new() };
        assert(b.records() =~= Seq::<Record>::empty());
        assert(b@ =~= Map::<(Seq<u8>, Seq<u8>), Seq<u8>>::empty());
        b
    }

    /// The directory the backend is rooted at.
    pub fn path(&self) -> (r: &String)
        ensures
            r@ == self.spec_path(),
    {
        &self.path
    }

    /// The identifier of the state that the backend holds.
    pub fn state_id(&self) -> (r: &String)
        ensures
            r@ == self.spec_state_id(),
    {
        &self.state_id
    }

    /// The number of stored records.
    pub fn len(&self) -> (n: usize)
        ensures
            n == self.records().len(),
    {
        self.entries.len()
    }

    fn find(&self, handle: &Handle, key: &[u8]) -> (r: Option<usize>)
        ensures
            match r {
                Some(i) => i < self.records().len() && at_slot(
                    self.records()[i as int],
                    handle@,
                    key@,
                ),
                None => !holds(self.records(), handle@, key@),
            },
    {
        let mut i: usize = 0;
        while i < self.entries.len()
            invariant
                i <= self.entries@.len(),
                forall|j: int| 0 <= j < i ==> !at_slot(#[trigger] self.records()[j], handle@, key@),
            decreases self.entries@.len() - i,
        {
            if same_bytes(self.entries[i].handle.as_slice(), handle.name.as_slice()) && same_bytes(
                self.entries[i].key.as_slice(),
                key,
            ) {
                return Some(i);
            }
            i += 1;
        }
        None
    }

    /// The bytes stored under `handle` and `key`, if any.
    pub fn get(&self, handle: &Handle, key: &[u8]) -> (r: Option<Vec<u8>>)
        requires
            self.wf(),
        ensures
            match r {
                Some(v) => self@.contains_key((handle@, key@)) && self@[(handle@, key@)] == v@,
                None => !self@.contains_key((handle@, key@)),
            },
    {
        match self.find(handle, key) {
            Some(i) => {
                proof {
                    lemma_position(self.records(), i as int);
                }
                let value = &self.entries[i].value;
                let copy = copy_range(value.as_slice(), 0, value.len());
                assert(copy@ =~= value@);
                Some(copy)
            },
            None => None,
        }
    }

    /// Whether anything is stored under `handle` and `key`.
    pub fn contains(&self, handle: &Handle, key: &[u8]) -> (r: bool)
        requires
            self.wf(),
        ensures
            r == self@.contains_key((handle@, key@)),
    {
        match self.find(handle, key) {
            Some(i) => {
                proof {
                    lemma_position(self.records(), i as int);
                }
                true
            },
            None => false,
        }
    }

    /// Stores `value` under `handle` and `key`, in place of what was there.
    pub fn put(&mut self, handle: &Handle, key: &[u8], value: Vec<u8>)
        requires
            old(self).wf(),
        ensures
            final(self).wf(),
            final(self)@ == old(self)@.insert((handle@, key@), value@),
            final(self).spec_path() == old(self).spec_path(),
            final(self).spec_state_id() == old(self).spec_state_id(),
    {
        let ghost before = self.records();
        match self.find(handle, key) {
            Some(i) => {
                let gone = self.entries.remove(i);
                proof {
                    lemma_position(before, i as int);
                    lemma_contents_remove(before, i as int);
                    assert(self.records() =~= before.remove(i as int));
                }
                let ghost mid = self.records();
                let entry = Entry { handle: gone.handle, key: gone.key, value };
                proof {
                    assert(!contents(mid).contains_key((handle@, key@)));
                    lemma_contents_push(mid, entry.record());
                }
                self.entries.push(entry);
                proof {
                    assert(self.records() =~= mid.push(entry.record()));
                    assert(self@ =~= old(self)@.insert((handle@, key@), value@));
                }
            },
            None => {
                let entry = Entry {
                    handle: copy_range(handle.name.as_slice(), 0, handle.name.len()),
                    key: copy_range(key, 0, key.len()),
                    value,
                };
                proof {
                    assert(entry.handle@ =~= handle@);
                    assert(entry.key@ =~= key@);
                    lemma_contents_push(before, entry.record());
                }
                self.entries.push(entry);
                proof {
                    assert(self.records() =~= before.push(entry.record()));
                }
            },
        }
    }

    /// Removes what is stored under `handle` and `key`; says whether there
    /// was anything.
    pub fn delete(&mut self, handle: &Handle, key: &[u8]) -> (r: bool)
        requires
            old(self).wf(),
        ensures
            final(self).wf(),
            final(self)@ == old(self)@.remove((handle@, key@)),
            r == old(self)@.contains_key((handle@, key@)),
            final(self).spec_path() == old(self).spec_path(),
            final(self).spec_state_id() == old(self).spec_state_id(),
    {
        let ghost before = self.records();
        match self.find(handle, key) {
            Some(i) => {
                proof {
                    lemma_position(before, i as int);
                    lemma_contents_remove(before, i as int);
                }
                self.entries.remove(i);
                proof {
                    assert(self.records() =~= before.remove(i as int));
                }
                true
            },
            None => {
                assert(self@ =~= old(self)@.remove((handle@, key@)));
                false
            },
        }
    }
    /// The keys and values stored under `handle` whose key starts with
    /// `prefix`, each once.
    pub fn scan(&self, handle: &Handle, prefix: &[u8]) -> (found: Vec<(Vec<u8>, Vec<u8>)>)
        requires
            self.wf(),
        ensures
            forall|i: int|
                0 <= i < found@.len() ==> {
                    &&& starts_with((#[trigger] found@[i]).0@, prefix@)
                    &&& self@.contains_key((handle@, found@[i].0@))
                    &&& self@[(handle@, found@[i].0@)] == found@[i].1@
                },
            forall|key: Seq<u8>|
                starts_with(key, prefix@) && #[trigger] self@.contains_key((handle@, key))
                    ==> exists|i: int| 0 <= i < found@.len() && (#[trigger] found@[i]).0@ == key,
            forall|i: int, j: int|
                0 <= i < j < found@.len() ==> (#[trigger] found@[i]).0@ != (#[trigger] found@[j]).0@,
    {
        let mut found: Vec<(Vec<u8>, Vec<u8>)> = Vec::new();
        let ghost mut origin: Seq<int> = Seq::empty();
        let mut n: usize = 0;
        while n < self.entries.len()
            invariant
                n <= self.entries@.len(),
                self.wf(),
                origin.len() == found@.len(),
                forall|i: int|
                    0 <= i < found@.len() ==> {
                        &&& 0 <= #[trigger] origin[i] < n
                        &&& self.records()[origin[i]].handle == handle@
                        &&& self.records()[origin[i]].key == found@[i].0@
                        &&& self.records()[origin[i]].value == found@[i].1@
                        &&& starts_with(found@[i].0@, prefix@)
                    },
                forall|i: int, j: int| 0 <= i < j < origin.len() ==> origin[i] < origin[j],
                forall|m: int|
                    0 <= m < n && (#[trigger] self.records()[m]).handle == handle@ && starts_with(
                        self.records()[m].key,
                        prefix@,
                    ) ==> exists|i: int| 0 <= i < found@.len() && #[trigger] origin[i] == m,
            decreases self.entries@.len() - n,
        {
            let e = &self.entries[n];
            assert(self.records()[n as int] == e.record());
            let ghost before = found@;
            let ghost before_origin = origin;
            if same_bytes(e.handle.as_slice(), handle.name.as_slice()) && has_prefix(
                e.key.as_slice(),
                prefix,
            ) {
                let k = copy_range(e.key.as_slice(), 0, e.key.len());
                let v = copy_range(e.value.as_slice(), 0, e.value.len());
                assert(k@ =~= e.key@ && v@ =~= e.value@);
                found.push((k, v));
                proof {
                    origin = origin.push(n as int);
                    assert forall|m: int|
                        0 <= m < n + 1 && (#[trigger] self.records()[m]).handle == handle@
                            && starts_with(self.records()[m].key, prefix@) implies exists|i: int|
                        0 <= i < found@.len() && #[trigger] origin[i] == m by {
                        if m < n {
                            let i = choose|i: int|
                                0 <= i < before.len() && #[trigger] before_origin[i] == m;
                            assert(origin[i] == m);
                        } else {
                            assert(origin[before.len() as int] == m);
                        }
                    }
                }
            } else {
                proof {
                    assert forall|m: int|
                        0 <= m < n + 1 && (#[trigger] self.records()[m]).handle == handle@
                            && starts_with(self.records()[m].key, prefix@) implies exists|i: int|
                        0 <= i < found@.len() && #[trigger] origin[i] == m by {
                        let i = choose|i: int|
                            0 <= i < before.len() && #[trigger] before_origin[i] == m;
                        assert(origin[i] == m);
                    }
                }
            }
            n += 1;
        }
        proof {
            let records = self.records();
            assert forall|i: int| 0 <= i < found@.len() implies {
                &&& starts_with((#[trigger] found@[i]).0@, prefix@)
                &&& self@.contains_key((handle@, found@[i].0@))
                &&& self@[(handle@, found@[i].0@)] == found@[i].1@
            } by {
                lemma_position(records, origin[i]);
            }
            assert forall|key: Seq<u8>|
                starts_with(key, prefix@) && #[trigger] self@.contains_key(
                    (handle@, key),
                ) implies exists|i: int| 0 <= i < found@.len() && (#[trigger] found@[i]).0@
                == key by {
                let m = position(records, handle@, key);
                assert(at_slot(records[m], handle@, key));
                let i = choose|i: int| 0 <= i < found@.len() && #[trigger] origin[i] == m;
                assert(found@[i].0@ == key);
            }
            assert forall|i: int, j: int| 0 <= i < j < found@.len() implies (#[trigger] found@[i]).0@
                != (#[trigger] found@[j]).0@ by {
                assert(origin[i] < origin[j]);
                assert(records[origin[i]].handle == records[origin[j]].handle);
            }
        }
        found
    }

    /// A snapshot of the whole contents, to be kept in `dest_dir`. The backend
    /// is not changed, the snapshot's image decodes to its records, and a
    /// restore from the snapshot for the same state succeeds with these
    /// records.
    pub fn checkpoint(&self, dest_dir: String) -> (s: Snapshot)
        requires
            self.wf(),
        ensures
            s.path() == dest_dir@,
            s.image() == image_encoding(self.state_id_bytes(), self.records()),
            image_decoding(s.image()) == Some((self.state_id_bytes(), self.records())),
            restore_outcome(s.image(), self.state_id_bytes()) == Ok::<Seq<Record>, SnapshotError>(
                self.records(),
            ),
    {
        let mut rows: Vec<Vec<u8>> = Vec::new();
        let mut i: usize = 0;
        while i < self.entries.len()
            invariant
                i <= self.entries@.len(),
                rows@.len() == i,
                forall|j: int|
                    0 <= j < i ==> (#[trigger] rows@[j])@ == record_encoding(self.records()[j]),
            decreases self.entries@.len() - i,
        {
            let e = &self.entries[i];
            let row = encode_record(e.handle.as_slice(), e.key.as_slice(), e.value.as_slice());
            assert(self.records()[i as int] == e.record());
            rows.push(row);
            i += 1;
        }
        let id = self.state_id.as_str().as_bytes();
        proof {
            self.lemma_wf();
            let records = self.records();
            assert(seq![id@] + views(rows@) =~= image_frames(id@, records));
            assert forall|j: int| 0 <= j < records.len() implies {
                &&& (#[trigger] records[j]).handle.len() <= max_frame_len()
                &&& records[j].key.len() <= max_frame_len()
                &&& records[j].value.len() <= max_frame_len()
                &&& record_encoding(records[j]).len() <= max_frame_len()
            } by {
                let e = self.entries@[j];
                assert(records[j] == e.record());
                assert(e.handle.len() <= usize::MAX);
                assert(e.key.len() <= usize::MAX);
                assert(e.value.len() <= usize::MAX);
                assert(rows@[j].len() <= usize::MAX);
            }
            assert(id.len() <= usize::MAX);
            lemma_image_round_trip(id@, records);
        }
        let image = encode_image(id, rows);
        Snapshot::new(dest_dir, image)
    }

    /// The backend that `snapshot` was taken of, rooted at `target_dir`, for
    /// the state `state_id`. It fails where the snapshot holds no image, where
    /// the bytes are no image or hold a slot twice, and where the image was
    /// taken of another state.
    pub fn restore(snapshot: &Snapshot, target_dir: String, state_id: String) -> (r: Result<
        Backend,
        SnapshotError,
    >)
        ensures
            match restore_outcome(snapshot.image(), encode_utf8(state_id@)) {
                Ok(records) => r matches Ok(b) && b.wf() && b.records() == records
                    && b.spec_path() == target_dir@ && b.spec_state_id() == state_id@,
                Err(e) => r matches Err(got) && got == e,
            },
            r matches Ok(b) ==> image_decoding(snapshot.image()) == Some(
                (b.state_id_bytes(), b.records()),
            ),
    {
        let frames = match decode_image(snapshot.bytes().as_slice()) {
            Ok(frames) => frames,
            Err(SnapshotError::Missing) => { return Err(SnapshotError::Missing); },
            Err(_) => { return Err(SnapshotError::Corrupt); },
        };
        let ghost all = views(frames@);
        let same_state = same_bytes(frames[0].as_slice(), state_id.as_str().as_bytes());
        let mut b = Backend { path: target_dir, state_id, entries: Vec::new() };
        let n = frames.len();
        let mut i: usize = 1;
        assert(b.records() =~= Seq::<Record>::empty());
        while i < n
            invariant
                1 <= i <= n == frames@.len(),
                all == views(frames@),
                snapshot.image().len() >= 4,
                snapshot.image().subrange(0, 4) == crate::snapshot::image_magic(),
                frames_decoding(snapshot.image().subrange(4, snapshot.image().len() as int))
                    == Some(all),
                b.records().len() == i - 1,
                forall|j: int|
                    1 <= j < i ==> record_decoding(#[trigger] all[j]) == Some(b.records()[j - 1]),
                distinct_slots(b.records()),
                b.path == target_dir,
                b.state_id == state_id,
            decreases n - i,
        {
            let (h, k, v) = match decode_record(frames[i].as_slice()) {
                Some(fields) => fields,
                None => {
                    assert(record_decoding(all[i as int]) is None);
                    return Err(SnapshotError::Corrupt);
                },
            };
            let handle = Handle { name: h };
            if b.find(&handle, k.as_slice()).is_some() {
                proof {
                    let found = choose|j: int|
                        0 <= j < b.records().len() && at_slot(
                            #[trigger] b.records()[j],
                            handle@,
                            k@,
                        );
                    if holds_records(all) {
                        let records = records_in(all);
                        assert(record_decoding(all[found + 1]) == Some(records[found]));
                        assert(record_decoding(all[i as int]) == Some(records[i - 1]));
                        assert(records[found].handle == records[i - 1].handle);
                        assert(records[found].key == records[i - 1].key);
                    }
                }
                return Err(SnapshotError::Corrupt);
            }
            let entry = Entry { handle: handle.name, key: k, value: v };
            proof {
                lemma_contents_push(b.records(), entry.record());
            }
            let ghost before = b.records();
            b.entries.push(entry);
            proof {
                assert(b.records() =~= before.push(entry.record()));
            }
            i += 1;
        }
        proof {
            assert(holds_records(all));
            assert(records_in(all) =~= b.records());
        }
        if !same_state {
            return Err(SnapshotError::WrongState);
        }
        Ok(b)
    }
}

/// The outcome of restoring a backend from an image for the state whose
/// identifier has the bytes `state_id`.
pub open spec fn restore_outcome(image: Seq<u8>, state_id: Seq<u8>) -> Result<
    Seq<Record>,
    SnapshotError,
> {
    if image.len() == 0 {
        Err(SnapshotError::Missing)
    } else {
        match image_decoding(image) {
            None => Err(SnapshotError::Corrupt),
            Some((id, records)) => if !distinct_slots(records) {
                Err(SnapshotError::Corrupt)
            } else if id != state_id {
                Err(SnapshotError::WrongState)
            } else {
                Ok(records)
            },
        }
    }
}

/// Two backends with the same records hold the same.
pub proof fn lemma_same_records(first: Backend, second: Backend)
    requires
        first.records() == second.records(),
    ensures
        first@ == second@,
{
}

/// A backend restored from a checkpoint holds what the backend held of which
/// the checkpoint was taken: the two have the same records, so every read of
/// one gives what the same read of the other gives.
pub proof fn law_restore_of_checkpoint(before: Backend, snapshot: Snapshot, after: Backend)
    requires
        image_decoding(snapshot.image()) == Some((before.state_id_bytes(), before.records())),
        image_decoding(snapshot.image()) == Some((after.state_id_bytes(), after.records())),
    ensures
        after.records() == before.records(),
        after@ == before@,
        after.state_id_bytes() == before.state_id_bytes(),
{
    lemma_same_records(after, before);
}

/// Two backends restored from one snapshot hold the same.
pub proof fn law_restore_twice(snapshot: Snapshot, first: Backend, second: Backend)
    requires
        image_decoding(snapshot.image()) == Some((first.state_id_bytes(), first.records())),
        image_decoding(snapshot.image()) == Some((second.state_id_bytes(), second.records())),
    ensures
        first@ == second@,
        first.records() == second.records(),
{
    lemma_same_records(first, second);
}

/// Whether `key` starts with `prefix`.
pub open spec fn starts_with(key: Seq<u8>, prefix: Seq<u8>) -> bool {
    prefix.len() <= key.len() && key.subrange(0, prefix.len() as int) == prefix
}

/// Whether `key` starts with `prefix`.
pub fn has_prefix(key: &[u8], prefix: &[u8]) -> (r: bool)
    ensures
        r == starts_with(key@, prefix@),
{
    if prefix.len() > key.len() {
        return false;
    }
    let mut i: usize = 0;
    while i < prefix.len()
        invariant
            i <= prefix@.len() <= key@.len(),
            forall|j: int| 0 <= j < i ==> key@[j] == prefix@[j],
        decreases prefix@.len() - i,
    {
        if key[i] != prefix[i] {
            assert(key@.subrange(0, prefix@.len() as int)[i as int] == key@[i as int]);
            return false;
        }
        i += 1;
    }
    assert(key@.subrange(0, prefix@.len() as int) =~= prefix@);
    true
}

} // verus!
