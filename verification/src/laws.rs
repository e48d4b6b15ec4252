//! What holds of the indices whatever the backend holds, stated over the
//! contents that the indices' contracts speak of.

use crate::backend::{law_restore_of_checkpoint, Backend};
use crate::codec::{max_frame_len, IndexValue};
use crate::dataflow::{each_gives, joined, stepped};
use crate::function::{flat_mapped, Filter, FlatMap, MapEach, MapInPlace, Operator};
use crate::operator::ArconElement;
use crate::error::StateError;
use crate::index::hash_table::{lemma_absent, lemma_first, lemma_none_before};
use crate::index::timer::{due_until, in_order, placed_at, scheduled_into};
use crate::index::window::{aggregated, materialized, window_key, WindowContext};
use crate::index::{
    distinct_keys, first_of, is_first, key_bytes, logical, map_get, map_put, map_remove,
    read_list, read_value, same_elsewhere, Store,
};
use crate::snapshot::{image_decoding, Snapshot};
use vstd::prelude::*;

verus! {

/// Two keys with the same bytes are the same key.
pub proof fn lemma_key_bytes_injective(a: u64, b: u64)
    requires
        key_bytes(a) == key_bytes(b),
    ensures
        a == b,
{
    vstd::bytes::lemma_auto_spec_u64_to_from_le_bytes();
}

/// A value that was put is the value that is read: once `value` is stored
/// for a key, reading the key gives `value`. The eager and the lazy value
/// index both state `put` and `get` over these contents, so this holds of
/// both.
pub proof fn law_put_then_get<V: IndexValue>(store: Store, handle: Seq<u8>, key: u64, value: V)
    requires
        value.encoding().len() <= max_frame_len(),
    ensures
        read_value::<V>(
            store.insert((handle, key_bytes(key)), value.encoding()),
            handle,
            key,
        ) == Ok::<Option<V>, StateError>(Some(value)),
{
    V::lemma_round_trip(value);
}

/// What is stored for one key says nothing of another: a write under `key`
/// leaves what is read under `other` as it was.
pub proof fn law_value_keys_apart<V: IndexValue>(
    before: Store,
    after: Store,
    handle: Seq<u8>,
    key: u64,
    other: u64,
)
    requires
        same_elsewhere(after, before, handle, key_bytes(key)),
        key != other,
    ensures
        read_value::<V>(after, handle, other) == read_value::<V>(before, handle, other),
{
    if key_bytes(key) == key_bytes(other) {
        lemma_key_bytes_injective(key, other);
    }
    let slot = (handle, key_bytes(other));
    assert(after.contains_key(slot) == before.contains_key(slot));
}

/// Whether `stores` is what a run of appends goes through: each store holds
/// the log of the one before with the next of `values` at its end.
pub open spec fn appended_in_turn<V: IndexValue>(
    stores: Seq<Store>,
    handle: Seq<u8>,
    key: Seq<u8>,
    values: Seq<V>,
) -> bool {
    &&& stores.len() == values.len() + 1
    &&& forall|i: int|
        0 <= i < values.len() ==> match read_list::<V>(#[trigger] stores[i], handle, key) {
            Ok(items) => read_list::<V>(stores[i + 1], handle, key) == Ok::<Seq<V>, StateError>(
                items.push(values[i]),
            ),
            Err(_) => false,
        }
}

/// Appending `values` one by one to an empty log and then consuming the log
/// gives exactly `values`, in order; and the log that the consume leaves gives
/// the empty sequence when it is consumed again.
pub proof fn law_appends_then_consume<V: IndexValue>(
    stores: Seq<Store>,
    handle: Seq<u8>,
    key: Seq<u8>,
    values: Seq<V>,
)
    requires
        appended_in_turn(stores, handle, key, values),
        read_list::<V>(stores[0], handle, key) == Ok::<Seq<V>, StateError>(Seq::empty()),
    ensures
        read_list::<V>(stores.last(), handle, key) == Ok::<Seq<V>, StateError>(values),
        read_list::<V>(stores.last().remove((handle, key)), handle, key) == Ok::<
            Seq<V>,
            StateError,
        >(Seq::empty()),
    decreases values.len(),
{
    if values.len() == 0 {
        assert(values =~= Seq::<V>::empty());
    } else {
        let n = values.len() as int;
        let front = stores.drop_last();
        let given = values.drop_last();
        assert forall|i: int| 0 <= i < given.len() implies match read_list::<V>(
            #[trigger] front[i],
            handle,
            key,
        ) {
            Ok(items) => read_list::<V>(front[i + 1], handle, key) == Ok::<Seq<V>, StateError>(
                items.push(given[i]),
            ),
            Err(_) => false,
        } by {
            assert(front[i] == stores[i]);
            assert(front[i + 1] == stores[i + 1]);
        }
        law_appends_then_consume(front, handle, key, given);
        assert(front.last() == stores[n - 1]);
        assert(read_list::<V>(stores[n - 1], handle, key) == Ok::<Seq<V>, StateError>(given));
        assert(given.push(values[n - 1]) =~= values);
    }
}

/// The value put for a key of a map is the value that the map holds for it.
pub proof fn law_map_put_then_get<K, V>(pairs: Seq<(K, V)>, key: K, value: V)
    ensures
        map_get(map_put(pairs, key, value), key) == Some(value),
{
    let after = map_put(pairs, key, value);
    match first_of(pairs, key) {
        Some(i) => {
            assert(is_first(pairs, key, i));
            assert forall|j: int| 0 <= j < i implies (#[trigger] after[j]).0 != key by {
                assert(after[j] == pairs[j]);
            }
            assert(is_first(after, key, i));
            lemma_first(after, key, i);
        },
        None => {
            lemma_none_before(pairs, key, pairs.len() as int);
            assert forall|j: int| 0 <= j < pairs.len() implies (#[trigger] after[j]).0 != key by {
                assert(after[j] == pairs[j]);
            }
            assert(is_first(after, key, pairs.len() as int));
            lemma_first(after, key, pairs.len() as int);
        },
    }
}

/// Putting a value for one key of a map leaves what the map holds for
/// another.
pub proof fn law_map_put_leaves_others<K, V>(pairs: Seq<(K, V)>, key: K, value: V, other: K)
    requires
        key != other,
    ensures
        map_get(map_put(pairs, key, value), other) == map_get(pairs, other),
{
    let after = map_put(pairs, key, value);
    assert(after.len() >= pairs.len());
    assert forall|j: int| 0 <= j < pairs.len() implies ((#[trigger] after[j]).0 == other) == (
    pairs[j].0 == other) && (pairs[j].0 == other ==> after[j] == pairs[j]) by {
        match first_of(pairs, key) {
            Some(i) => {
                assert(is_first(pairs, key, i));
            },
            None => {},
        }
    }
    match first_of(pairs, other) {
        Some(i) => {
            assert(is_first(pairs, other, i));
            assert(is_first(after, other, i));
            lemma_first(after, other, i);
        },
        None => {
            lemma_none_before(pairs, other, pairs.len() as int);
            assert forall|j: int| 0 <= j < after.len() implies (#[trigger] after[j]).0
                != other by {
                if j < pairs.len() {
                    assert(pairs[j].0 != other);
                }
            }
            lemma_absent(after, other);
        },
    }
}

/// A map in which no key occurs twice stays so under `put` and `take`, and
/// once a key has been taken out the map holds nothing for it.
pub proof fn law_map_take_then_get<K, V>(pairs: Seq<(K, V)>, key: K)
    requires
        distinct_keys(pairs),
    ensures
        distinct_keys(map_remove(pairs, key)),
        map_get(map_remove(pairs, key), key) is None,
{
    let after = map_remove(pairs, key);
    match first_of(pairs, key) {
        Some(i) => {
            assert(is_first(pairs, key, i));
            assert forall|j: int| 0 <= j < after.len() implies (#[trigger] after[j]).0 != key by {
                if j < i {
                    assert(after[j] == pairs[j]);
                } else {
                    assert(after[j] == pairs[j + 1]);
                    assert(pairs[i].0 != pairs[j + 1].0);
                }
            }
            lemma_absent(after, key);
            assert forall|a: int, b: int| 0 <= a < b < after.len() implies (#[trigger] after[a]).0
                != (#[trigger] after[b]).0 by {
                let a0 = if a < i { a } else { a + 1 };
                let b0 = if b < i { b } else { b + 1 };
                assert(after[a] == pairs[a0]);
                assert(after[b] == pairs[b0]);
            }
        },
        None => {},
    }
}

/// A map in which no key occurs twice stays so under `put`.
pub proof fn law_map_put_keeps_distinct<K, V>(pairs: Seq<(K, V)>, key: K, value: V)
    requires
        distinct_keys(pairs),
    ensures
        distinct_keys(map_put(pairs, key, value)),
{
    let after = map_put(pairs, key, value);
    match first_of(pairs, key) {
        Some(i) => {
            assert(is_first(pairs, key, i));
            assert forall|a: int, b: int| 0 <= a < b < after.len() implies (#[trigger] after[a]).0
                != (#[trigger] after[b]).0 by {
                assert(after[a].0 == pairs[a].0);
                assert(after[b].0 == pairs[b].0);
            }
        },
        None => {
            lemma_none_before(pairs, key, pairs.len() as int);
            assert forall|a: int, b: int| 0 <= a < b < after.len() implies (#[trigger] after[a]).0
                != (#[trigger] after[b]).0 by {
                assert(after[a] == pairs[a]);
                if b < pairs.len() {
                    assert(after[b] == pairs[b]);
                }
            }
        },
    }
}

/// The maps of two keys of the runtime share nothing. After a value has been
/// put for `inner` in the map of the key `a`, the map of another key `b` is
/// what it was, so it holds for `inner` what it held before, and nothing
/// where it held nothing; and the map of `a` holds the value.
pub proof fn law_partitions_apart<K: IndexValue, V: IndexValue>(
    before: Store,
    after: Store,
    handle: Seq<u8>,
    a: u64,
    b: u64,
    inner: K,
    value: V,
)
    requires
        a != b,
        same_elsewhere(after, before, handle, key_bytes(a)),
        match read_list::<(K, V)>(before, handle, key_bytes(a)) {
            Ok(pairs) => read_list::<(K, V)>(after, handle, key_bytes(a)) == Ok::<
                Seq<(K, V)>,
                StateError,
            >(map_put(pairs, inner, value)),
            Err(_) => false,
        },
    ensures
        read_list::<(K, V)>(after, handle, key_bytes(b)) == read_list::<(K, V)>(
            before,
            handle,
            key_bytes(b),
        ),
        read_list::<(K, V)>(after, handle, key_bytes(a)) matches Ok(pairs) && map_get(pairs, inner)
            == Some(value),
{
    if key_bytes(a) == key_bytes(b) {
        lemma_key_bytes_injective(a, b);
    }
    let slot = (handle, key_bytes(b));
    assert(after.contains_key(slot) == before.contains_key(slot));
    let pairs = read_list::<(K, V)>(before, handle, key_bytes(a)).unwrap();
    law_map_put_then_get(pairs, inner, value);
}

/// What is read after a restore is what was read before the checkpoint. An
/// index that has been persisted holds nothing back, so what it stands for is
/// the backend's contents; a checkpoint's image decodes to the records of the
/// backend it was taken of, and a restored backend holds the records that the
/// image decodes to. So every read of a value and of a list gives on the
/// restored backend what it gave before, and with it `get` and `table`, which
/// are stated over these reads.
pub proof fn law_state_survives_checkpoint<V: IndexValue>(
    before: Backend,
    snapshot: Snapshot,
    after: Backend,
    handle: Seq<u8>,
    key: u64,
)
    requires
        image_decoding(snapshot.image()) == Some((before.state_id_bytes(), before.records())),
        image_decoding(snapshot.image()) == Some((after.state_id_bytes(), after.records())),
    ensures
        read_value::<V>(logical(after@, None), handle, key) == read_value::<V>(
            logical(before@, None),
            handle,
            key,
        ),
        read_list::<V>(logical(after@, None), handle, key_bytes(key)) == read_list::<V>(
            logical(before@, None),
            handle,
            key_bytes(key),
        ),
{
    law_restore_of_checkpoint(before, snapshot, after);
}

/// Two windows keep their state apart: contexts that differ in the key or in
/// the number have different bytes.
pub proof fn law_windows_apart(a: WindowContext, b: WindowContext)
    requires
        a != b,
    ensures
        window_key(a) != window_key(b),
{
    vstd::bytes::lemma_auto_spec_u64_to_from_le_bytes();
    if window_key(a) == window_key(b) {
        assert(window_key(a).subrange(0, 8) =~= key_bytes(a.key));
        assert(window_key(b).subrange(0, 8) =~= key_bytes(b.key));
        assert(window_key(a).subrange(8, 16) =~= key_bytes(a.index));
        assert(window_key(b).subrange(8, 16) =~= key_bytes(b.index));
    }
}

/// A timer that has been scheduled fires when its time has come, and not
/// before: of the timers as they stand after the scheduling, it is among
/// those that are due at `time` exactly where its trigger time is not after
/// `time`, and it is never on both sides.
pub proof fn law_scheduled_timer_fires<T>(
    before: Seq<(u64, (u64, T))>,
    entry: (u64, (u64, T)),
    after: Seq<(u64, (u64, T))>,
    time: u64,
    n: int,
)
    requires
        in_order(before),
        scheduled_into(before, entry, after),
        due_until(after, time, n),
    ensures
        after.subrange(0, n).contains(entry) == (entry.0 <= time),
        after.subrange(n, after.len() as int).contains(entry) == (entry.0 > time),
{
    let i = choose|i: int| #[trigger] placed_at(before, entry, after, i);
    assert(after[i] == entry);
    let due = after.subrange(0, n);
    let rest = after.subrange(n, after.len() as int);
    if i < n {
        assert(due[i] == entry);
    } else {
        assert(rest[i - n] == entry);
    }
    if due.contains(entry) {
        let j = choose|j: int| 0 <= j < due.len() && due[j] == entry;
        assert(after[j] == entry);
    }
    if rest.contains(entry) {
        let j = choose|j: int| 0 <= j < rest.len() && rest[j] == entry;
        assert(after[j + n] == entry);
    }
}

/// The aggregate that an incremental window keeps after the elements `s`:
/// the first element lifted, and every later one combined, on the left, with
/// the aggregate so far.
pub open spec fn running<IN, OUT>(
    lift: spec_fn(IN) -> OUT,
    op: spec_fn(OUT, OUT) -> OUT,
    s: Seq<IN>,
) -> OUT
    decreases s.len(),
{
    if s.len() <= 1 {
        lift(s[0])
    } else {
        op(lift(s.last()), running(lift, op, s.drop_last()))
    }
}

/// What folding over the elements `s` from the first to the last gives.
pub open spec fn batch<IN, OUT>(
    lift: spec_fn(IN) -> OUT,
    op: spec_fn(OUT, OUT) -> OUT,
    s: Seq<IN>,
) -> OUT
    decreases s.len(),
{
    if s.len() <= 1 {
        lift(s[0])
    } else {
        op(batch(lift, op, s.drop_last()), lift(s.last()))
    }
}

/// Whether `op` gives the same whichever way round its arguments stand.
#[verifier::opaque]
pub open spec fn commutative<OUT>(op: spec_fn(OUT, OUT) -> OUT) -> bool {
    forall|a: OUT, b: OUT| #[trigger] op(a, b) == op(b, a)
}

/// Whether `op` gives the same however its applications are grouped.
#[verifier::opaque]
pub open spec fn associative<OUT>(op: spec_fn(OUT, OUT) -> OUT) -> bool {
    forall|a: OUT, b: OUT, c: OUT| #[trigger] op(op(a, b), c) == op(a, op(b, c))
}

/// For an operation that is associative and commutative, the running
/// aggregate of a sequence of elements is what folding over the sequence
/// gives.
pub proof fn law_running_equals_batch<IN, OUT>(
    lift: spec_fn(IN) -> OUT,
    op: spec_fn(OUT, OUT) -> OUT,
    s: Seq<IN>,
)
    requires
        s.len() >= 1,
        commutative(op),
        associative(op),
    ensures
        running(lift, op, s) == batch(lift, op, s),
    decreases s.len(),
{
    if s.len() > 1 {
        law_running_equals_batch(lift, op, s.drop_last());
        let rest = running(lift, op, s.drop_last());
        assert(op(lift(s.last()), rest) == op(rest, lift(s.last()))) by {
            reveal(commutative);
        }
    }
}

/// Whether `trace` holds the aggregates that an incremental window with the
/// functions `init` and `agg` may go through as the elements `s` come, one by
/// one, to a window that held nothing: one aggregate after each element.
pub open spec fn aggregates<IN, OUT, I: Fn(IN) -> OUT, A: Fn(IN, &OUT) -> OUT>(
    init: I,
    agg: A,
    s: Seq<IN>,
    trace: Seq<OUT>,
) -> bool {
    &&& trace.len() == s.len()
    &&& forall|i: int|
        0 <= i < s.len() ==> aggregated(
            init,
            agg,
            if i == 0 {
                None
            } else {
                Some(trace[i - 1])
            },
            s[i],
            #[trigger] trace[i],
        )
}

/// Where the functions of an incremental window compute `lift` and `op`, the
/// aggregate after the first `n` elements is their running aggregate.
pub proof fn lemma_incremental_runs<IN, OUT, I: Fn(IN) -> OUT, A: Fn(IN, &OUT) -> OUT>(
    init: I,
    agg: A,
    lift: spec_fn(IN) -> OUT,
    op: spec_fn(OUT, OUT) -> OUT,
    s: Seq<IN>,
    trace: Seq<OUT>,
    n: int,
)
    requires
        forall|x: IN, r: OUT| #[trigger] init.ensures((x,), r) ==> r == lift(x),
        forall|x: IN, acc: &OUT, r: OUT| #[trigger] agg.ensures((x, acc), r) ==> r == op(lift(x), *acc),
        aggregates(init, agg, s, trace),
        1 <= n <= s.len(),
    ensures
        trace[n - 1] == running(lift, op, s.subrange(0, n)),
    decreases n,
{
    let head = s.subrange(0, n);
    assert(aggregated(
        init,
        agg,
        if n - 1 == 0 {
            None
        } else {
            Some(trace[n - 2])
        },
        s[n - 1],
        trace[n - 1],
    ));
    if n == 1 {
        assert(head[0] == s[0]);
        assert(init.ensures((s[0],), trace[0]));
    } else {
        lemma_incremental_runs(init, agg, lift, op, s, trace, n - 1);
        assert(head.drop_last() =~= s.subrange(0, n - 1));
        assert(head.last() == s[n - 1]);
        let prev = trace[n - 2];
        assert(agg.ensures((s[n - 1], &prev), trace[n - 1]));
    }
}

/// For the same elements, the result of an incremental window is the result
/// of an appender-backed window, where the aggregation is associative and
/// commutative: the incremental window's functions lift an element and
/// combine it with the aggregate by `op`, and the appender window's function
/// folds over the elements with the same `lift` and `op`. The incremental
/// window's result is the last aggregate of `trace`.
pub proof fn law_incremental_equals_appender<
    IN,
    OUT,
    I: Fn(IN) -> OUT,
    A: Fn(IN, &OUT) -> OUT,
    F: Fn(&[IN]) -> OUT,
>(
    init: I,
    agg: A,
    materializer: F,
    lift: spec_fn(IN) -> OUT,
    op: spec_fn(OUT, OUT) -> OUT,
    s: Seq<IN>,
    trace: Seq<OUT>,
    appender_result: OUT,
)
    requires
        s.len() >= 1,
        commutative(op),
        associative(op),
        forall|x: IN, r: OUT| #[trigger] init.ensures((x,), r) ==> r == lift(x),
        forall|x: IN, acc: &OUT, r: OUT| #[trigger] agg.ensures((x, acc), r) ==> r == op(lift(x), *acc),
        forall|items: &[IN], r: OUT| #[trigger]
            materializer.ensures((items,), r) ==> r == batch(lift, op, items@),
        aggregates(init, agg, s, trace),
        materialized(materializer, s, appender_result),
    ensures
        trace.last() == appender_result,
{
    lemma_incremental_runs(init, agg, lift, op, s, trace, s.len() as int);
    assert(s.subrange(0, s.len() as int) =~= s);
    law_running_equals_batch(lift, op, s);
    let items = choose|items: &[IN]| items@ == s && #[trigger] materializer.ensures(
        (items,),
        appender_result,
    );
    assert(appender_result == batch(lift, op, items@));
}

/// Parts of one element each, one after the other, are the elements of the
/// parts in their order.
pub proof fn lemma_joined_singles<T>(parts: Seq<Seq<T>>)
    requires
        forall|i: int| 0 <= i < parts.len() ==> (#[trigger] parts[i]).len() == 1,
    ensures
        joined(parts).len() == parts.len(),
        forall|i: int| 0 <= i < parts.len() ==> #[trigger] joined(parts)[i] == parts[i][0],
    decreases parts.len(),
{
    if parts.len() > 0 {
        let front = parts.drop_last();
        assert forall|i: int| 0 <= i < front.len() implies (#[trigger] front[i]).len() == 1 by {
            assert(front[i] == parts[i]);
        }
        lemma_joined_singles(front);
        assert forall|i: int| 0 <= i < parts.len() implies #[trigger] joined(parts)[i]
            == parts[i][0] by {
            if i < front.len() {
                assert(joined(parts)[i] == joined(front)[i]);
                assert(front[i] == parts[i]);
            } else {
                assert(parts.last().len() == 1);
            }
        }
    }
}

/// What a stream carries behind a map: for the elements `mid` that come in,
/// as many elements go out, in the same order, and each is what `f` made of
/// the element at its place, with that element's timestamp. The same holds
/// behind an operator that changes elements in place.
pub proof fn law_map_carries<IN, OUT, F: Fn(IN) -> OUT>(
    operator: MapEach<IN, OUT, F>,
    mid: Seq<ArconElement<IN>>,
    out: Seq<ArconElement<OUT>>,
)
    requires
        stepped(operator, mid, out),
    ensures
        out.len() == mid.len(),
        forall|i: int|
            0 <= i < mid.len() ==> operator.f.ensures((mid[i].data,), (#[trigger] out[i]).data)
                && out[i].timestamp == mid[i].timestamp,
{
    let parts = choose|parts: Seq<Seq<ArconElement<OUT>>>|
        #[trigger] each_gives(operator, mid, parts) && out == joined(parts);
    assert forall|i: int| 0 <= i < parts.len() implies (#[trigger] parts[i]).len() == 1 by {
        assert(operator.gives(mid[i], parts[i]));
    }
    lemma_joined_singles(parts);
    assert forall|i: int| 0 <= i < mid.len() implies operator.f.ensures(
        (mid[i].data,),
        (#[trigger] out[i]).data,
    ) && out[i].timestamp == mid[i].timestamp by {
        assert(operator.gives(mid[i], parts[i]));
        assert(out[i] == parts[i][0]);
    }
}

/// What a stream carries behind an operator that changes elements in place:
/// as many elements go out as come in, in the same order, and each is the
/// element at its place as `f` changed it.
pub proof fn law_map_in_place_carries<IN, F: Fn(IN) -> IN>(
    operator: MapInPlace<IN, F>,
    mid: Seq<ArconElement<IN>>,
    out: Seq<ArconElement<IN>>,
)
    requires
        stepped(operator, mid, out),
    ensures
        out.len() == mid.len(),
        forall|i: int|
            0 <= i < mid.len() ==> operator.f.ensures((mid[i].data,), (#[trigger] out[i]).data)
                && out[i].timestamp == mid[i].timestamp,
{
    let parts = choose|parts: Seq<Seq<ArconElement<IN>>>|
        #[trigger] each_gives(operator, mid, parts) && out == joined(parts);
    assert forall|i: int| 0 <= i < parts.len() implies (#[trigger] parts[i]).len() == 1 by {
        assert(operator.gives(mid[i], parts[i]));
    }
    lemma_joined_singles(parts);
    assert forall|i: int| 0 <= i < mid.len() implies operator.f.ensures(
        (mid[i].data,),
        (#[trigger] out[i]).data,
    ) && out[i].timestamp == mid[i].timestamp by {
        assert(operator.gives(mid[i], parts[i]));
        assert(out[i] == parts[i][0]);
    }
}

/// The elements of `mid` at the places where `keep` says yes, in their
/// order.
pub open spec fn kept<T>(mid: Seq<T>, keep: Seq<bool>) -> Seq<T>
    decreases mid.len(),
{
    if mid.len() == 0 {
        Seq::empty()
    } else if keep.last() {
        kept(mid.drop_last(), keep.drop_last()).push(mid.last())
    } else {
        kept(mid.drop_last(), keep.drop_last())
    }
}

/// Whether `keep` holds, for each element of `mid`, an answer that `f` may
/// give of it.
pub open spec fn answers<IN, F: Fn(&IN) -> bool>(
    f: F,
    mid: Seq<ArconElement<IN>>,
    keep: Seq<bool>,
) -> bool {
    &&& keep.len() == mid.len()
    &&& forall|i: int| 0 <= i < mid.len() ==> f.ensures((&mid[i].data,), #[trigger] keep[i])
}

/// What a stream carries behind a filter: exactly the elements that come in
/// and of which `f` says yes, unchanged and in their order.
pub proof fn law_filter_carries<IN, F: Fn(&IN) -> bool>(
    operator: Filter<IN, F>,
    mid: Seq<ArconElement<IN>>,
    out: Seq<ArconElement<IN>>,
)
    requires
        stepped(operator, mid, out),
    ensures
        exists|keep: Seq<bool>| #[trigger] answers(operator.f, mid, keep) && out == kept(mid, keep),
{
    let parts = choose|parts: Seq<Seq<ArconElement<IN>>>|
        #[trigger] each_gives(operator, mid, parts) && out == joined(parts);
    let keep = Seq::new(mid.len(), |i: int| parts[i].len() == 1);
    assert forall|i: int| 0 <= i < mid.len() implies operator.f.ensures(
        (&mid[i].data,),
        #[trigger] keep[i],
    ) && parts[i] == if keep[i] {
        seq![mid[i]]
    } else {
        Seq::<ArconElement<IN>>::empty()
    } by {
        assert(operator.gives(mid[i], parts[i]));
    }
    lemma_joined_kept(mid, parts, keep);
    assert(answers(operator.f, mid, keep));
}

/// Parts that hold an element where `keep` says yes and nothing where it
/// says no are, one after the other, the elements that are kept.
pub proof fn lemma_joined_kept<T>(mid: Seq<T>, parts: Seq<Seq<T>>, keep: Seq<bool>)
    requires
        parts.len() == mid.len(),
        keep.len() == mid.len(),
        forall|i: int|
            0 <= i < mid.len() ==> #[trigger] parts[i] == if keep[i] {
                seq![mid[i]]
            } else {
                Seq::<T>::empty()
            },
    ensures
        joined(parts) == kept(mid, keep),
    decreases mid.len(),
{
    if mid.len() > 0 {
        let n = mid.len() - 1;
        assert forall|i: int| 0 <= i < n implies #[trigger] parts.drop_last()[i] == if keep.drop_last()[i] {
            seq![mid.drop_last()[i]]
        } else {
            Seq::<T>::empty()
        } by {
            assert(parts.drop_last()[i] == parts[i]);
        }
        lemma_joined_kept(mid.drop_last(), parts.drop_last(), keep.drop_last());
        assert(parts.last() == parts[n]);
        if keep[n] {
            assert(joined(parts.drop_last()) + seq![mid[n]] =~= kept(
                mid.drop_last(),
                keep.drop_last(),
            ).push(mid.last()));
        } else {
            assert(joined(parts.drop_last()) + Seq::<T>::empty() =~= kept(
                mid.drop_last(),
                keep.drop_last(),
            ));
        }
    } else {
        assert(joined(parts) =~= kept(mid, keep));
    }
}

/// What a stream carries behind a flatmap: for each element that comes in,
/// the items that `f` made of it, in their order and with the element's
/// timestamp; an element of which `f` made nothing adds nothing.
pub proof fn law_flatmap_carries<IN, OUT, F: Fn(IN) -> Vec<OUT>>(
    operator: FlatMap<IN, OUT, F>,
    mid: Seq<ArconElement<IN>>,
    out: Seq<ArconElement<OUT>>,
)
    requires
        stepped(operator, mid, out),
    ensures
        exists|parts: Seq<Seq<ArconElement<OUT>>>|
            {
                &&& #[trigger] each_gives(operator, mid, parts)
                &&& out == joined(parts)
                &&& forall|i: int|
                    0 <= i < mid.len() ==> flat_mapped(operator.f, mid[i], #[trigger] parts[i])
            },
{
    let parts = choose|parts: Seq<Seq<ArconElement<OUT>>>|
        #[trigger] each_gives(operator, mid, parts) && out == joined(parts);
    assert forall|i: int| 0 <= i < mid.len() implies flat_mapped(
        operator.f,
        mid[i],
        #[trigger] parts[i],
    ) by {
        assert(operator.gives(mid[i], parts[i]));
    }
}

} // verus!
