//! Snapshots: the whole contents of a backend as one byte image.
//!
//! An image is four magic bytes, then a run of frames: the identifier of the
//! state, then handle, key and value of each record in turn.

use crate::backend::Record;
use crate::codec::{
    copy_range, decode_frames, encode_frames, extend, frames_decoding, frames_encoding,
    lemma_frames_round_trip, max_frame_len, views,
};
use crate::error::SnapshotError;
use vstd::prelude::*;

verus! {

/// The four bytes that every image starts with.
pub open spec fn image_magic() -> Seq<u8> {
    seq![0x41u8, 0x52u8, 0x43u8, 0x4eu8]
}

/// The bytes of one record: the frames of its handle, key and value.
pub open spec fn record_encoding(record: Record) -> Seq<u8> {
    frames_encoding(seq![record.handle, record.key, record.value])
}

/// The record that `bytes` hold, if they are three frames.
pub open spec fn record_decoding(bytes: Seq<u8>) -> Option<Record> {
    match frames_decoding(bytes) {
        Some(fields) => if fields.len() == 3 {
            Some(Record { handle: fields[0], key: fields[1], value: fields[2] })
        } else {
            None
        },
        None => None,
    }
}

/// Whether every record, and each of its fields, fits in a frame.
pub open spec fn storable(records: Seq<Record>) -> bool {
    forall|i: int|
        0 <= i < records.len() ==> {
            &&& (#[trigger] records[i]).handle.len() <= max_frame_len()
            &&& records[i].key.len() <= max_frame_len()
            &&& records[i].value.len() <= max_frame_len()
            &&& record_encoding(records[i]).len() <= max_frame_len()
        }
}

/// The frames of an image: the state's identifier, then the records.
pub open spec fn image_frames(state_id: Seq<u8>, records: Seq<Record>) -> Seq<Seq<u8>> {
    Seq::new(
        records.len() + 1,
        |i: int|
            if i == 0 {
                state_id
            } else {
                record_encoding(records[i - 1])
            },
    )
}

/// The image of a state: the magic bytes, then the frames of the state's
/// identifier and of each record.
pub open spec fn image_encoding(state_id: Seq<u8>, records: Seq<Record>) -> Seq<u8> {
    image_magic() + frames_encoding(image_frames(state_id, records))
}

/// Whether every frame behind the first holds a record.
pub open spec fn holds_records(frames: Seq<Seq<u8>>) -> bool {
    forall|i: int| 1 <= i < frames.len() ==> record_decoding(#[trigger] frames[i]) is Some
}

/// The records held by the frames behind the first.
pub open spec fn records_in(frames: Seq<Seq<u8>>) -> Seq<Record> {
    Seq::new((frames.len() - 1) as nat, |i: int| record_decoding(frames[i + 1]).unwrap())
}

/// The identifier and the records that an image holds; `None` where the bytes
/// are not an image.
pub open spec fn image_decoding(bytes: Seq<u8>) -> Option<(Seq<u8>, Seq<Record>)> {
    if bytes.len() < 4 || bytes.subrange(0, 4) != image_magic() {
        None
    } else {
        match frames_decoding(bytes.subrange(4, bytes.len() as int)) {
            None => None,
            Some(frames) => if frames.len() >= 1 && holds_records(frames) {
                Some((frames[0], records_in(frames)))
            } else {
                None
            },
        }
    }
}

/// The bytes of a record decode to the record.
pub proof fn lemma_record_round_trip(record: Record)
    requires
        record.handle.len() <= max_frame_len(),
        record.key.len() <= max_frame_len(),
        record.value.len() <= max_frame_len(),
    ensures
        record_decoding(record_encoding(record)) == Some(record),
{
    lemma_frames_round_trip(seq![record.handle, record.key, record.value]);
}

/// An image decodes to the identifier and the records that it was made of.
pub proof fn lemma_image_round_trip(state_id: Seq<u8>, records: Seq<Record>)
    requires
        state_id.len() <= max_frame_len(),
        storable(records),
    ensures
        image_decoding(image_encoding(state_id, records)) == Some((state_id, records)),
{
    let frames = image_frames(state_id, records);
    let bytes = image_encoding(state_id, records);
    assert forall|i: int| 0 <= i < frames.len() implies (#[trigger] frames[i]).len()
        <= max_frame_len() by {
        if i > 0 {
            assert(record_encoding(records[i - 1]).len() <= max_frame_len());
        }
    }
    lemma_frames_round_trip(frames);
    assert(bytes.subrange(0, 4) =~= image_magic());
    assert(bytes.subrange(4, bytes.len() as int) =~= frames_encoding(frames));
    assert forall|i: int| 1 <= i < frames.len() implies record_decoding(#[trigger] frames[i])
        == Some(records[i - 1]) by {
        lemma_record_round_trip(records[i - 1]);
    }
    assert(records_in(frames) =~= records);
}

/// A copy of a backend's contents at one point in logical time. It names the
/// directory it is kept in and holds the image; once made it is not changed.
#[derive(Debug)]
pub struct Snapshot {
    snapshot_path: String,
    image: Vec<u8>,
}

impl Snapshot {
    /// The bytes of the image.
    pub closed spec fn image(&self) -> Seq<u8> {
        self.image@
    }

    /// The directory the snapshot is kept in.
    pub closed spec fn path(&self) -> Seq<char> {
        self.snapshot_path@
    }

    /// The snapshot kept in `snapshot_path` whose image is `image`.
    pub fn new(snapshot_path: String, image: Vec<u8>) -> (s: Snapshot)
        ensures
            s.path() == snapshot_path@,
            s.image() == image@,
    {
        Snapshot { snapshot_path, image }
    }

    /// The directory the snapshot is kept in.
    pub fn snapshot_path(&self) -> (r: &String)
        ensures
            r@ == self.path(),
    {
        &self.snapshot_path
    }

    /// The bytes of the image.
    pub fn bytes(&self) -> (r: &Vec<u8>)
        ensures
            r@ == self.image(),
    {
        &self.image
    }
}

/// Writes one record.
pub fn encode_record(handle: &[u8], key: &[u8], value: &[u8]) -> (out: Vec<u8>)
    ensures
        out@ == record_encoding(Record { handle: handle@, key: key@, value: value@ }),
{
    let mut fields: Vec<Vec<u8>> = Vec::new();
    let h = copy_range(handle, 0, handle.len());
    let k = copy_range(key, 0, key.len());
    let v = copy_range(value, 0, value.len());
    assert(h@ =~= handle@ && k@ =~= key@ && v@ =~= value@);
    fields.push(h);
    fields.push(k);
    fields.push(v);
    assert(views(fields@) =~= seq![handle@, key@, value@]);
    encode_frames(&fields)
}

/// Reads one record: its handle, key and value.
pub fn decode_record(bytes: &[u8]) -> (r: Option<(Vec<u8>, Vec<u8>, Vec<u8>)>)
    ensures
        match r {
            Some((h, k, v)) => record_decoding(bytes@) == Some(
                Record { handle: h@, key: k@, value: v@ },
            ),
            None => record_decoding(bytes@) is None,
        },
{
    match decode_frames(bytes) {
        None => None,
        Some(fields) => {
            if fields.len() != 3 {
                return None;
            }
            let mut fields = fields;
            let ghost all = views(fields@);
            let v = fields.remove(2);
            let k = fields.remove(1);
            let h = fields.remove(0);
            assert(all[0] == h@ && all[1] == k@ && all[2] == v@);
            Some((h, k, v))
        },
    }
}

/// Writes the image of a state whose identifier is `state_id` and whose
/// records, each already written as bytes, are `records`.
pub fn encode_image(state_id: &[u8], records: Vec<Vec<u8>>) -> (out: Vec<u8>)
    ensures
        out@ == image_magic() + frames_encoding(seq![state_id@] + views(records@)),
{
    let mut frames: Vec<Vec<u8>> = Vec::new();
    let id = copy_range(state_id, 0, state_id.len());
    assert(id@ =~= state_id@);
    frames.push(id);
    let mut records = records;
    let ghost given = records@;
    frames.append(&mut records);
    assert(views(frames@) =~= seq![state_id@] + views(given));
    let mut out: Vec<u8> = Vec::new();
    out.push(0x41u8);
    out.push(0x52u8);
    out.push(0x43u8);
    out.push(0x4eu8);
    assert(out@ =~= image_magic());
    let body = encode_frames(&frames);
    extend(&mut out, body.as_slice());
    out
}

/// Reads the frames of an image: the state's identifier first. It fails with
/// `Missing` where there are no bytes, and with `Corrupt` where the magic
/// bytes or the frames are wrong.
pub fn decode_image(bytes: &[u8]) -> (r: Result<Vec<Vec<u8>>, SnapshotError>)
    ensures
        match r {
            Ok(frames) => {
                &&& bytes@.len() >= 4
                &&& bytes@.subrange(0, 4) == image_magic()
                &&& frames_decoding(bytes@.subrange(4, bytes@.len() as int)) == Some(
                    views(frames@),
                )
                &&& frames@.len() >= 1
            },
            Err(SnapshotError::Missing) => bytes@.len() == 0,
            Err(SnapshotError::Corrupt) => bytes@.len() > 0 && image_decoding(bytes@) is None,
            Err(SnapshotError::WrongState) => false,
        },
{
    if bytes.len() == 0 {
        return Err(SnapshotError::Missing);
    }
    if bytes.len() < 4 {
        return Err(SnapshotError::Corrupt);
    }
    if bytes[0] != 0x41u8 || bytes[1] != 0x52u8 || bytes[2] != 0x43u8 || bytes[3] != 0x4eu8 {
        assert(bytes@.subrange(0, 4)[0] == bytes@[0]);
        assert(bytes@.subrange(0, 4)[1] == bytes@[1]);
        assert(bytes@.subrange(0, 4)[2] == bytes@[2]);
        assert(bytes@.subrange(0, 4)[3] == bytes@[3]);
        return Err(SnapshotError::Corrupt);
    }
    assert(bytes@.subrange(0, 4) =~= image_magic());
    let body = copy_range(bytes, 4, bytes.len());
    match decode_frames(body.as_slice()) {
        None => Err(SnapshotError::Corrupt),
        Some(frames) => {
            if frames.len() < 1 {
                return Err(SnapshotError::Corrupt);
            }
            Ok(frames)
        },
    }
}

} // verus!
