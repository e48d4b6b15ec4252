//! Byte encodings: the values an index can hold, and length-prefixed frames.

use vstd::bytes::{
    lemma_auto_spec_u32_to_from_le_bytes, lemma_auto_spec_u64_to_from_le_bytes,
    spec_u32_from_le_bytes, spec_u32_to_le_bytes, spec_u64_from_le_bytes, spec_u64_to_le_bytes,
    u32_from_le_bytes, u32_to_le_bytes, u64_from_le_bytes, u64_to_le_bytes,
};
use vstd::prelude::*;
use vstd::slice::slice_subrange;

verus! {

/// The longest byte string that fits in one frame.
pub open spec fn max_frame_len() -> int {
    0xffff_ffff_ffff_ffff
}

/// A value that an index can store: it has a byte encoding that decodes back
/// to the same value, a default, and can be copied.
pub trait IndexValue: Sized {
    /// The bytes that stand for this value in a backend.
    spec fn encoding(&self) -> Seq<u8>;

    /// The value that `bytes` stand for, if any.
    spec fn decoding(bytes: Seq<u8>) -> Option<Self>;

    /// The value that a read-modify-write starts from when nothing is stored.
    spec fn default_value() -> Self;

    /// Decoding undoes encoding, for a value whose encoding fits in a frame.
    proof fn lemma_round_trip(v: Self)
        requires
            v.encoding().len() <= max_frame_len(),
        ensures
            Self::decoding(v.encoding()) == Some(v),
    ;

    fn encode(&self) -> (out: Vec<u8>)
        ensures
            out@ == self.encoding(),
    ;

    fn decode(bytes: &[u8]) -> (r: Option<Self>)
        ensures
            r == Self::decoding(bytes@),
    ;

    fn initial() -> (r: Self)
        ensures
            r == Self::default_value(),
    ;

    fn duplicate(&self) -> (r: Self)
        ensures
            r == *self,
    ;

    fn same(&self, other: &Self) -> (r: bool)
        ensures
            r == (*self == *other),
    ;
}

impl IndexValue for u64 {
    open spec fn encoding(&self) -> Seq<u8> {
        spec_u64_to_le_bytes(*self)
    }

    open spec fn decoding(bytes: Seq<u8>) -> Option<Self> {
        if bytes.len() == 8 {
            Some(spec_u64_from_le_bytes(bytes))
        } else {
            None
        }
    }

    open spec fn default_value() -> Self {
        0
    }

    proof fn lemma_round_trip(v: Self) {
        lemma_auto_spec_u64_to_from_le_bytes();
    }

    fn encode(&self) -> (out: Vec<u8>) {
        u64_to_le_bytes(*self)
    }

    fn decode(bytes: &[u8]) -> (r: Option<Self>) {
        if bytes.len() == 8 {
            Some(u64_from_le_bytes(bytes))
        } else {
            None
        }
    }

    fn initial() -> (r: Self) {
        0
    }

    fn duplicate(&self) -> (r: Self) {
        *self
    }

    fn same(&self, other: &Self) -> (r: bool) {
        *self == *other
    }
}

impl IndexValue for u32 {
    open spec fn encoding(&self) -> Seq<u8> {
        spec_u32_to_le_bytes(*self)
    }

    open spec fn decoding(bytes: Seq<u8>) -> Option<Self> {
        if bytes.len() == 4 {
            Some(spec_u32_from_le_bytes(bytes))
        } else {
            None
        }
    }

    open spec fn default_value() -> Self {
        0
    }

    proof fn lemma_round_trip(v: Self) {
        lemma_auto_spec_u32_to_from_le_bytes();
    }

    fn encode(&self) -> (out: Vec<u8>) {
        u32_to_le_bytes(*self)
    }

    fn decode(bytes: &[u8]) -> (r: Option<Self>) {
        if bytes.len() == 4 {
            Some(u32_from_le_bytes(bytes))
        } else {
            None
        }
    }

    fn initial() -> (r: Self) {
        0
    }

    fn duplicate(&self) -> (r: Self) {
        *self
    }

    fn same(&self, other: &Self) -> (r: bool) {
        *self == *other
    }
}

impl IndexValue for u8 {
    open spec fn encoding(&self) -> Seq<u8> {
        seq![*self]
    }

    open spec fn decoding(bytes: Seq<u8>) -> Option<Self> {
        if bytes.len() == 1 {
            Some(bytes[0])
        } else {
            None
        }
    }

    open spec fn default_value() -> Self {
        0
    }

    proof fn lemma_round_trip(v: Self) {
    }

    fn encode(&self) -> (out: Vec<u8>) {
        let mut out: Vec<u8> = Vec::new();
        out.push(*self);
        assert(out@ =~= seq![*self]);
        out
    }

    fn decode(bytes: &[u8]) -> (r: Option<Self>) {
        if bytes.len() == 1 {
            Some(bytes[0])
        } else {
            None
        }
    }

    fn initial() -> (r: Self) {
        0
    }

    fn duplicate(&self) -> (r: Self) {
        *self
    }

    fn same(&self, other: &Self) -> (r: bool) {
        *self == *other
    }
}

/// Appends `src` to `out`.
pub fn extend(out: &mut Vec<u8>, src: &[u8])
    ensures
        final(out)@ == old(out)@ + src@,
{
    let mut i: usize = 0;
    while i < src.len()
        invariant
            i <= src@.len(),
            out@ == old(out)@ + src@.subrange(0, i as int),
        decreases src@.len() - i,
    {
        out.push(src[i]);
        assert(src@.subrange(0, i + 1) =~= src@.subrange(0, i as int).push(src@[i as int]));
        i += 1;
    }
    assert(src@.subrange(0, i as int) =~= src@);
}

/// Copies `src[from..to]` into a new vector.
pub fn copy_range(src: &[u8], from: usize, to: usize) -> (out: Vec<u8>)
    requires
        from <= to <= src@.len(),
    ensures
        out@ == src@.subrange(from as int, to as int),
{
    let mut out: Vec<u8> = Vec::new();
    let mut i: usize = from;
    while i < to
        invariant
            from <= i <= to <= src@.len(),
            out@ == src@.subrange(from as int, i as int),
        decreases to - i,
    {
        out.push(src[i]);
        assert(src@.subrange(from as int, i + 1) =~= src@.subrange(from as int, i as int).push(
            src@[i as int],
        ));
        i += 1;
    }
    out
}

/// Whether two byte strings are equal.
pub fn same_bytes(a: &[u8], b: &[u8]) -> (r: bool)
    ensures
        r == (a@ == b@),
{
    if a.len() != b.len() {
        return false;
    }
    let mut i: usize = 0;
    while i < a.len()
        invariant
            a@.len() == b@.len(),
            i <= a@.len(),
            forall|j: int| 0 <= j < i ==> a@[j] == b@[j],
        decreases a@.len() - i,
    {
        if a[i] != b[i] {
            return false;
        }
        i += 1;
    }
    assert(a@ =~= b@);
    true
}

/// One byte string behind its length, which is written as eight bytes, the
/// lowest first.
pub open spec fn frame(item: Seq<u8>) -> Seq<u8> {
    spec_u64_to_le_bytes(item.len() as u64) + item
}

/// The frames of `items`, one after the other.
pub open spec fn frames_encoding(items: Seq<Seq<u8>>) -> Seq<u8>
    decreases items.len(),
{
    if items.len() == 0 {
        Seq::empty()
    } else {
        frames_encoding(items.drop_last()) + frame(items.last())
    }
}

/// The byte strings whose frames make up `bytes`; `None` where `bytes` ends
/// inside a frame.
pub open spec fn frames_decoding(bytes: Seq<u8>) -> Option<Seq<Seq<u8>>>
    decreases bytes.len(),
{
    if bytes.len() == 0 {
        Some(Seq::empty())
    } else if bytes.len() < 8 {
        None
    } else {
        let n = spec_u64_from_le_bytes(bytes.subrange(0, 8)) as int;
        if bytes.len() - 8 < n {
            None
        } else {
            match frames_decoding(bytes.subrange(8 + n, bytes.len() as int)) {
                Some(rest) => Some(seq![bytes.subrange(8, 8 + n)] + rest),
                None => None,
            }
        }
    }
}

/// Whether every byte string of `items` fits in a frame.
pub open spec fn frameable(items: Seq<Seq<u8>>) -> bool {
    forall|i: int| 0 <= i < items.len() ==> (#[trigger] items[i]).len() <= max_frame_len()
}

/// The byte strings held by a vector of vectors.
pub open spec fn views(items: Seq<Vec<u8>>) -> Seq<Seq<u8>> {
    Seq::new(items.len(), |i: int| items[i]@)
}

/// Decoding one frame followed by `tail` gives the framed bytes, then what
/// `tail` decodes to.
pub proof fn lemma_decode_frame(item: Seq<u8>, tail: Seq<u8>)
    requires
        item.len() <= max_frame_len(),
    ensures
        frames_decoding(frame(item) + tail) == match frames_decoding(tail) {
            Some(rest) => Some(seq![item] + rest),
            None => None,
        },
{
    lemma_auto_spec_u64_to_from_le_bytes();
    let bytes = frame(item) + tail;
    let n = item.len() as int;
    assert(bytes.subrange(0, 8) =~= spec_u64_to_le_bytes(item.len() as u64));
    assert(bytes.subrange(8, 8 + n) =~= item);
    assert(bytes.subrange(8 + n, bytes.len() as int) =~= tail);
}

/// Decoding the frames of `items` followed by `tail` gives `items`, then what
/// `tail` decodes to.
pub proof fn lemma_decode_frames_then(items: Seq<Seq<u8>>, tail: Seq<u8>)
    requires
        frameable(items),
    ensures
        frames_decoding(frames_encoding(items) + tail) == match frames_decoding(tail) {
            Some(rest) => Some(items + rest),
            None => None,
        },
    decreases items.len(),
{
    if items.len() == 0 {
        assert(frames_encoding(items) + tail =~= tail);
        match frames_decoding(tail) {
            Some(rest) => {
                assert(items + rest =~= rest);
            },
            None => {},
        }
    } else {
        let front = items.drop_last();
        let last = items.last();
        let tail2 = frame(last) + tail;
        assert(frames_encoding(items) + tail =~= frames_encoding(front) + tail2);
        lemma_decode_frames_then(front, tail2);
        lemma_decode_frame(last, tail);
        match frames_decoding(tail) {
            Some(rest) => {
                assert(front + (seq![last] + rest) =~= items + rest);
            },
            None => {},
        }
    }
}

/// Decoding undoes encoding: the frames of `items` decode to `items`.
pub proof fn lemma_frames_round_trip(items: Seq<Seq<u8>>)
    requires
        frameable(items),
    ensures
        frames_decoding(frames_encoding(items)) == Some(items),
{
    lemma_decode_frames_then(items, Seq::empty());
    assert(frames_encoding(items) + Seq::<u8>::empty() =~= frames_encoding(items));
    assert(items + Seq::<Seq<u8>>::empty() =~= items);
}

/// Writes the frames of `items`.
pub fn encode_frames(items: &Vec<Vec<u8>>) -> (out: Vec<u8>)
    ensures
        out@ == frames_encoding(views(items@)),
{
    let mut out: Vec<u8> = Vec::new();
    let mut i: usize = 0;
    while i < items.len()
        invariant
            i <= items@.len(),
            out@ == frames_encoding(views(items@).subrange(0, i as int)),
        decreases items@.len() - i,
    {
        let header = u64_to_le_bytes(items[i].len() as u64);
        extend(&mut out, header.as_slice());
        extend(&mut out, items[i].as_slice());
        proof {
            let done = views(items@).subrange(0, i + 1);
            assert(done.drop_last() =~= views(items@).subrange(0, i as int));
            assert(done.last() == items@[i as int]@);
        }
        i += 1;
    }
    assert(views(items@).subrange(0, i as int) =~= views(items@));
    out
}

/// Splits `bytes` into the byte strings that were framed; `None` where
/// `bytes` ends inside a frame.
pub fn decode_frames(bytes: &[u8]) -> (r: Option<Vec<Vec<u8>>>)
    ensures
        match r {
            Some(items) => frames_decoding(bytes@) == Some(views(items@)),
            None => frames_decoding(bytes@) is None,
        },
{
    let mut out: Vec<Vec<u8>> = Vec::new();
    let mut pos: usize = 0;
    let len = bytes.len();
    proof {
        assert(bytes@.subrange(0, len as int) =~= bytes@);
        match frames_decoding(bytes@) {
            Some(rest) => {
                assert(views(out@) + rest =~= rest);
            },
            None => {},
        }
    }
    while pos < len
        invariant
            pos <= len == bytes@.len(),
            frames_decoding(bytes@) == match frames_decoding(bytes@.subrange(pos as int, len as int)) {
                Some(rest) => Some(views(out@) + rest),
                None => None,
            },
        decreases len - pos,
    {
        let ghost suffix = bytes@.subrange(pos as int, len as int);
        if len - pos < 8 {
            return None;
        }
        let n = u64_from_le_bytes(slice_subrange(bytes, pos, pos + 8));
        assert(bytes@.subrange(pos as int, pos + 8) =~= suffix.subrange(0, 8));
        if ((len - pos - 8) as u64) < n {
            return None;
        }
        let start = pos + 8;
        let end = start + n as usize;
        let item = copy_range(bytes, start, end);
        proof {
            assert(item@ =~= suffix.subrange(8, 8 + n));
            assert(bytes@.subrange(end as int, len as int) =~= suffix.subrange(
                8 + n,
                suffix.len() as int,
            ));
            let ghost before = views(out@);
            match frames_decoding(bytes@.subrange(end as int, len as int)) {
                Some(rest) => {
                    assert(before + (seq![item@] + rest) =~= views(out@.push(item)) + rest);
                },
                None => {},
            }
        }
        out.push(item);
        pos = end;
    }
    assert(views(out@) + Seq::<Seq<u8>>::empty() =~= views(out@));
    Some(out)
}

/// The encodings of `items`, one byte string each.
pub open spec fn encodings<V: IndexValue>(items: Seq<V>) -> Seq<Seq<u8>> {
    Seq::new(items.len(), |i: int| items[i].encoding())
}

/// The bytes of a list of values: the frames of their encodings.
pub open spec fn list_encoding<V: IndexValue>(items: Seq<V>) -> Seq<u8> {
    frames_encoding(encodings(items))
}

/// Whether every byte string of `frames` decodes to a value.
pub open spec fn all_decode<V: IndexValue>(frames: Seq<Seq<u8>>) -> bool {
    forall|i: int| 0 <= i < frames.len() ==> V::decoding(#[trigger] frames[i]) is Some
}

/// The values that the byte strings of `frames` decode to.
pub open spec fn decodings<V: IndexValue>(frames: Seq<Seq<u8>>) -> Seq<V> {
    Seq::new(frames.len(), |i: int| V::decoding(frames[i]).unwrap())
}

/// The list of values that `bytes` hold; `None` where `bytes` are not frames
/// or a frame does not decode.
pub open spec fn list_decoding<V: IndexValue>(bytes: Seq<u8>) -> Option<Seq<V>> {
    match frames_decoding(bytes) {
        Some(frames) => if all_decode::<V>(frames) {
            Some(decodings::<V>(frames))
        } else {
            None
        },
        None => None,
    }
}

/// The bytes of a list decode to the list.
pub proof fn lemma_list_round_trip<V: IndexValue>(items: Seq<V>)
    requires
        frameable(encodings(items)),
    ensures
        list_decoding::<V>(list_encoding(items)) == Some(items),
{
    let frames = encodings(items);
    lemma_frames_round_trip(frames);
    assert forall|i: int| 0 <= i < frames.len() implies V::decoding(#[trigger] frames[i]) == Some(
        items[i],
    ) by {
        assert(frames[i] == items[i].encoding());
        V::lemma_round_trip(items[i]);
    }
    assert(decodings::<V>(frames) =~= items);
}

/// Writes a list of values. Each encoding fits in a frame, so the bytes
/// decode to the list again.
pub fn encode_list<V: IndexValue>(items: &Vec<V>) -> (out: Vec<u8>)
    ensures
        out@ == list_encoding(items@),
        list_decoding::<V>(out@) == Some(items@),
{
    let mut rows: Vec<Vec<u8>> = Vec::new();
    let mut i: usize = 0;
    while i < items.len()
        invariant
            i <= items@.len(),
            rows@.len() == i,
            forall|j: int| 0 <= j < i ==> (#[trigger] rows@[j])@ == items@[j].encoding(),
        decreases items@.len() - i,
    {
        rows.push(items[i].encode());
        i += 1;
    }
    proof {
        assert(views(rows@) =~= encodings(items@));
        assert forall|j: int| 0 <= j < items@.len() implies (#[trigger] encodings(items@)[j]).len()
            <= max_frame_len() by {
            assert(rows@[j].len() <= usize::MAX);
        }
        lemma_list_round_trip(items@);
    }
    encode_frames(&rows)
}

/// Decodes each byte string of `rows`; `None` where one does not decode.
pub fn decode_rows<V: IndexValue>(rows: &Vec<Vec<u8>>) -> (r: Option<Vec<V>>)
    ensures
        match r {
            Some(items) => all_decode::<V>(views(rows@)) && items@ == decodings::<V>(views(rows@)),
            None => !all_decode::<V>(views(rows@)),
        },
{
    let mut out: Vec<V> = Vec::new();
    let mut i: usize = 0;
    let ghost frames = views(rows@);
    while i < rows.len()
        invariant
            i <= rows@.len(),
            frames == views(rows@),
            out@.len() == i,
            forall|j: int| 0 <= j < i ==> V::decoding(#[trigger] frames[j]) == Some(out@[j]),
        decreases rows@.len() - i,
    {
        match V::decode(rows[i].as_slice()) {
            Some(v) => {
                out.push(v);
            },
            None => {
                assert(V::decoding(frames[i as int]) is None);
                return None;
            },
        }
        i += 1;
    }
    assert(out@ =~= decodings::<V>(frames));
    Some(out)
}

/// Reads a list of values.
pub fn decode_list<V: IndexValue>(bytes: &[u8]) -> (r: Option<Vec<V>>)
    ensures
        match r {
            Some(items) => list_decoding::<V>(bytes@) == Some(items@),
            None => list_decoding::<V>(bytes@) is None,
        },
{
    match decode_frames(bytes) {
        None => None,
        Some(rows) => decode_rows(&rows),
    }
}

/// The frames of byte strings held in vectors decode to those byte strings.
pub proof fn lemma_rows_round_trip(rows: Seq<Vec<u8>>)
    ensures
        frames_decoding(frames_encoding(views(rows))) == Some(views(rows)),
{
    assert forall|i: int| 0 <= i < views(rows).len() implies (#[trigger] views(rows)[i]).len()
        <= max_frame_len() by {
        assert(rows[i].len() <= usize::MAX);
    }
    lemma_frames_round_trip(views(rows));
}

/// The bytes of two frames are sixteen bytes longer than what is framed.
pub proof fn lemma_pair_len(a: Seq<u8>, b: Seq<u8>)
    ensures
        frames_encoding(seq![a, b]).len() == 16 + a.len() + b.len(),
{
    lemma_auto_spec_u64_to_from_le_bytes();
    let both = seq![a, b];
    assert(both.drop_last() =~= seq![a]);
    assert(seq![a].drop_last() =~= Seq::<Seq<u8>>::empty());
    assert(frames_encoding(seq![a]) == frames_encoding(Seq::<Seq<u8>>::empty()) + frame(a));
    assert(frames_encoding(both) == frames_encoding(seq![a]) + frame(b));
}

impl<K: IndexValue, V: IndexValue> IndexValue for (K, V) {
    open spec fn encoding(&self) -> Seq<u8> {
        frames_encoding(seq![self.0.encoding(), self.1.encoding()])
    }

    open spec fn decoding(bytes: Seq<u8>) -> Option<Self> {
        match frames_decoding(bytes) {
            Some(parts) => if parts.len() == 2 {
                match (K::decoding(parts[0]), V::decoding(parts[1])) {
                    (Some(k), Some(v)) => Some((k, v)),
                    _ => None,
                }
            } else {
                None
            },
            None => None,
        }
    }

    open spec fn default_value() -> Self {
        (K::default_value(), V::default_value())
    }

    proof fn lemma_round_trip(v: Self) {
        lemma_pair_len(v.0.encoding(), v.1.encoding());
        lemma_frames_round_trip(seq![v.0.encoding(), v.1.encoding()]);
        K::lemma_round_trip(v.0);
        V::lemma_round_trip(v.1);
    }

    fn encode(&self) -> (out: Vec<u8>) {
        let mut parts: Vec<Vec<u8>> = Vec::new();
        parts.push(self.0.encode());
        parts.push(self.1.encode());
        assert(views(parts@) =~= seq![self.0.encoding(), self.1.encoding()]);
        encode_frames(&parts)
    }

    fn decode(bytes: &[u8]) -> (r: Option<Self>) {
        match decode_frames(bytes) {
            None => None,
            Some(parts) => {
                if parts.len() != 2 {
                    return None;
                }
                let ghost frames = views(parts@);
                assert(frames[0] == parts@[0]@ && frames[1] == parts@[1]@);
                match (K::decode(parts[0].as_slice()), V::decode(parts[1].as_slice())) {
                    (Some(k), Some(v)) => Some((k, v)),
                    _ => None,
                }
            },
        }
    }

    fn initial() -> (r: Self) {
        (K::initial(), V::initial())
    }

    fn duplicate(&self) -> (r: Self) {
        (self.0.duplicate(), self.1.duplicate())
    }

    fn same(&self, other: &Self) -> (r: bool) {
        self.0.same(&other.0) && self.1.same(&other.1)
    }
}

/// A copy of a list of values.
pub fn duplicate_list<V: IndexValue>(items: &Vec<V>) -> (out: Vec<V>)
    ensures
        out@ == items@,
{
    let mut out: Vec<V> = Vec::new();
    let mut i: usize = 0;
    while i < items.len()
        invariant
            i <= items@.len(),
            out@ == items@.subrange(0, i as int),
        decreases items@.len() - i,
    {
        out.push(items[i].duplicate());
        assert(items@.subrange(0, i + 1) =~= items@.subrange(0, i as int).push(items@[i as int]));
        i += 1;
    }
    assert(items@.subrange(0, i as int) =~= items@);
    out
}

} // verus!
