//! Window indices: the state of windowed aggregation.
//!
//! A window is named by a context: the key it belongs to and its number. Each
//! strategy keeps the state of a window under the context's bytes.
//! `AppenderWindow` keeps the elements and hands them to a function at the
//! end. `ArrowWindow` keeps the encoded elements as a column and hands the
//! table to a function. `IncrementalWindow` keeps a running aggregate.

use crate::backend::{Backend, Handle};
use crate::codec::{all_decode, decodings, extend, views, IndexValue};
use crate::error::{ArconResult, BackendError, Error, StateError, StateResult};
use crate::index::appender::{load_list, store_list};
use crate::index::{key_bytes, key_to_bytes, read_list, same_elsewhere, IndexOps, Store, Write};
use crate::table::ImmutableTable;
use core::marker::PhantomData;
use vstd::prelude::*;

verus! {

/// The name of a window: the key it belongs to and its number.
#[derive(Debug, Clone, Copy)]
pub struct WindowContext {
    pub key: u64,
    pub index: u64,
}

impl WindowContext {
    /// The context of window `index` of `key`.
    pub fn new(key: u64, index: u64) -> (ctx: WindowContext)
        ensures
            ctx.key == key,
            ctx.index == index,
    {
        WindowContext { key, index }
    }
}

/// The bytes under which a window's state is kept: the key's bytes, then the
/// number's.
pub open spec fn window_key(ctx: WindowContext) -> Seq<u8> {
    key_bytes(ctx.key) + key_bytes(ctx.index)
}

/// Writes the bytes of a context.
pub fn window_key_bytes(ctx: WindowContext) -> (out: Vec<u8>)
    ensures
        out@ == window_key(ctx),
{
    let mut out = key_to_bytes(ctx.key);
    let index = key_to_bytes(ctx.index);
    extend(&mut out, index.as_slice());
    out
}

/// What reading the aggregate of a window gives: nothing where nothing is
/// stored, the aggregate where the stored bytes decode, and an encoding error
/// where they do not.
pub open spec fn read_aggregate<V: IndexValue>(
    store: Store,
    handle: Seq<u8>,
    ctx: WindowContext,
) -> StateResult<Option<V>> {
    if store.contains_key((handle, window_key(ctx))) {
        match V::decoding(store[(handle, window_key(ctx))]) {
            Some(v) => Ok(Some(v)),
            None => Err(StateError::Backend(BackendError::Encoding)),
        }
    } else {
        Ok(None)
    }
}

/// Whether `r` fails with the runtime error that stands for `e`.
pub open spec fn fails_with<T>(r: ArconResult<T>, e: StateError) -> bool {
    r matches Err(err) && err.message() == crate::error::state_error_text(e)@
}

/// The message of the error that `result` gives for a window without
/// elements, where the strategy keeps no elements.
pub open spec fn empty_window_text() -> &'static str {
    "the window holds no element"
}

/// An index for windows.
pub trait WindowIndex: IndexOps + Sized {
    type IN;

    type OUT;

    /// Takes `element` into the window `ctx`. Only that window's state is
    /// touched.
    fn on_element(&mut self, backend: &mut Backend, element: Self::IN, ctx: WindowContext) -> (r:
        ArconResult<()>)
        requires
            old(self).wf(),
            old(backend).wf(),
        ensures
            final(self).wf(),
            final(backend).wf(),
            final(backend).spec_path() == old(backend).spec_path(),
            final(backend).spec_state_id() == old(backend).spec_state_id(),
            final(self).handle_name() == old(self).handle_name(),
            final(self).pending() == old(self).pending(),
            same_elsewhere(final(backend)@, old(backend)@, old(self).handle_name(), window_key(ctx)),
            r is Err ==> final(backend)@ == old(backend)@,
    ;

    /// The output of the window `ctx`. Nothing is changed.
    fn result(&mut self, backend: &Backend, ctx: WindowContext) -> (r: ArconResult<Self::OUT>)
        requires
            old(self).wf(),
            backend.wf(),
        ensures
            final(self).wf(),
            final(self).handle_name() == old(self).handle_name(),
            final(self).pending() == old(self).pending(),
    ;

    /// Discards the state of the window `ctx`.
    fn clear(&mut self, backend: &mut Backend, ctx: WindowContext) -> (r: ArconResult<()>)
        requires
            old(self).wf(),
            old(backend).wf(),
        ensures
            r is Ok,
            final(self).wf(),
            final(backend).wf(),
            final(backend).spec_path() == old(backend).spec_path(),
            final(backend).spec_state_id() == old(backend).spec_state_id(),
            final(self).handle_name() == old(self).handle_name(),
            final(self).pending() == old(self).pending(),
            final(backend)@ == old(backend)@.remove((old(self).handle_name(), window_key(ctx))),
    ;
}

/// Whether `out` is what the function `f` may return for the elements
/// `items`.
pub open spec fn materialized<IN, OUT, F: Fn(&[IN]) -> OUT>(f: F, items: Seq<IN>, out: OUT) -> bool {
    exists|s: &[IN]| s@ == items && #[trigger] f.ensures((s,), out)
}

/// A window index that keeps the elements of each window and folds over them
/// when the result is asked for.
#[verifier::reject_recursive_types(IN)]
#[verifier::reject_recursive_types(OUT)]
pub struct AppenderWindow<IN: IndexValue, OUT, F: Fn(&[IN]) -> OUT> {
    handle: Handle,
    materializer: F,
    marker: PhantomData<(IN, OUT)>,
}

impl<IN: IndexValue, OUT, F: Fn(&[IN]) -> OUT> AppenderWindow<IN, OUT, F> {
    /// The function that makes the output of a window from its elements.
    pub closed spec fn spec_materializer(&self) -> F {
        self.materializer
    }

    /// An index that keeps its windows under the handle `name` and makes the
    /// output of a window with `materializer`, which must take every slice.
    pub fn new(name: &str, materializer: F) -> (idx: Self)
        requires
            forall|s: &[IN]| materializer.requires((s,)),
        ensures
            idx.wf(),
            idx.pending() is None,
            idx.handle_name() == vstd::utf8::encode_utf8(name@),
            idx.spec_materializer() == materializer,
    {
        AppenderWindow { handle: Handle::new(name), materializer, marker: PhantomData }
    }
}

impl<IN: IndexValue, OUT, F: Fn(&[IN]) -> OUT> IndexOps for AppenderWindow<IN, OUT, F> {
    closed spec fn wf(&self) -> bool {
        forall|s: &[IN]| self.materializer.requires((s,))
    }

    closed spec fn handle_name(&self) -> Seq<u8> {
        self.handle@
    }

    open spec fn pending(&self) -> Option<Write> {
        None
    }

    open spec fn keyed_at(&self, key: u64) -> bool {
        true
    }

    fn persist(&mut self, backend: &mut Backend) -> (r: ArconResult<()>)
        ensures
            final(self).spec_materializer() == old(self).spec_materializer(),
    {
        Ok(())
    }

    /// A window is named by its context: there is no active key to set.
    fn set_key(&mut self, backend: &mut Backend, key: u64)
        ensures
            final(self).spec_materializer() == old(self).spec_materializer(),
    {
    }

    /// The index has no table.
    fn table(&mut self, backend: &Backend) -> (r: ArconResult<Option<ImmutableTable>>)
        ensures
            r matches Ok(None),
            final(self).spec_materializer() == old(self).spec_materializer(),
    {
        Ok(None)
    }
}

impl<IN: IndexValue, OUT, F: Fn(&[IN]) -> OUT> WindowIndex for AppenderWindow<IN, OUT, F> {
    type IN = IN;

    type OUT = OUT;

    /// Adds `element` at the end of the window's elements. It fails, and
    /// changes nothing, where the stored elements do not decode.
    fn on_element(&mut self, backend: &mut Backend, element: IN, ctx: WindowContext) -> (r:
        ArconResult<()>)
        ensures
            final(self).spec_materializer() == old(self).spec_materializer(),
            match read_list::<IN>(old(backend)@, old(self).handle_name(), window_key(ctx)) {
                Ok(items) => r is Ok && read_list::<IN>(
                    final(backend)@,
                    old(self).handle_name(),
                    window_key(ctx),
                ) == Ok::<Seq<IN>, StateError>(items.push(element)),
                Err(e) => fails_with(r, e),
            },
    {
        let kb = window_key_bytes(ctx);
        let (items, rows) = match load_list::<IN>(backend, &self.handle, kb.as_slice()) {
            Ok(loaded) => loaded,
            Err(e) => {
                return Err(e.into_error());
            },
        };
        let mut rows = rows;
        let bytes = element.encode();
        proof {
            assert(bytes.len() <= usize::MAX);
            IN::lemma_round_trip(element);
        }
        rows.push(bytes);
        store_list::<IN>(backend, &self.handle, kb.as_slice(), &rows, Ghost(items@.push(element)));
        Ok(())
    }

    /// What the function makes of the window's elements, in the order in
    /// which they came. It fails where the stored elements do not decode.
    fn result(&mut self, backend: &Backend, ctx: WindowContext) -> (r: ArconResult<OUT>)
        ensures
            final(self).spec_materializer() == old(self).spec_materializer(),
            match read_list::<IN>(backend@, old(self).handle_name(), window_key(ctx)) {
                Ok(items) => r matches Ok(out) && materialized(
                    old(self).spec_materializer(),
                    items,
                    out,
                ),
                Err(e) => fails_with(r, e),
            },
    {
        let kb = window_key_bytes(ctx);
        match load_list::<IN>(backend, &self.handle, kb.as_slice()) {
            Ok((items, rows)) => {
                let slice = items.as_slice();
                let out = (self.materializer)(slice);
                assert(self.materializer.ensures((slice,), out));
                Ok(out)
            },
            Err(e) => Err(e.into_error()),
        }
    }

    fn clear(&mut self, backend: &mut Backend, ctx: WindowContext) -> (r: ArconResult<()>)
        ensures
            final(self).spec_materializer() == old(self).spec_materializer(),
    {
        let kb = window_key_bytes(ctx);
        backend.delete(&self.handle, kb.as_slice());
        Ok(())
    }
}

/// Whether `out` is what the function `f` may return for a table of the
/// window whose elements are `items`: a table of one column whose cells
/// decode to the elements.
pub open spec fn tabulated<IN: IndexValue, OUT, F: Fn(&ImmutableTable) -> OUT>(
    f: F,
    name: Seq<u8>,
    items: Seq<IN>,
    out: OUT,
) -> bool {
    exists|t: &ImmutableTable|
        {
            &&& #[trigger] f.ensures((t,), out)
            &&& t@.name == name
            &&& t@.schema == seq!["element"@]
            &&& t@.columns.len() == 1
            &&& all_decode::<IN>(t@.columns[0])
            &&& decodings::<IN>(t@.columns[0]) == items
        }
}

/// A window index that keeps the encoded elements of each window as a
/// column, and hands the table to a function when the result is asked for.
#[verifier::reject_recursive_types(IN)]
#[verifier::reject_recursive_types(OUT)]
pub struct ArrowWindow<IN: IndexValue, OUT, F: Fn(&ImmutableTable) -> OUT> {
    handle: Handle,
    udf: F,
    marker: PhantomData<(IN, OUT)>,
}

impl<IN: IndexValue, OUT, F: Fn(&ImmutableTable) -> OUT> ArrowWindow<IN, OUT, F> {
    /// The function that makes the output of a window from its table.
    pub closed spec fn spec_udf(&self) -> F {
        self.udf
    }

    /// An index that keeps its windows under the handle `name` and makes the
    /// output of a window with `udf`, which must take every table.
    pub fn new(name: &str, udf: F) -> (idx: Self)
        requires
            forall|t: &ImmutableTable| udf.requires((t,)),
        ensures
            idx.wf(),
            idx.pending() is None,
            idx.handle_name() == vstd::utf8::encode_utf8(name@),
            idx.spec_udf() == udf,
    {
        ArrowWindow { handle: Handle::new(name), udf, marker: PhantomData }
    }

    /// The table of the window `ctx`: one column, with the encoded elements
    /// in the order in which they came.
    pub fn table_of(&self, backend: &Backend, ctx: WindowContext) -> (r: ArconResult<
        ImmutableTable,
    >)
        requires
            self.wf(),
            backend.wf(),
        ensures
            match read_list::<IN>(backend@, self.handle_name(), window_key(ctx)) {
                Ok(items) => r matches Ok(t) && t@.name == self.handle_name() && t@.schema
                    == seq!["element"@] && t@.columns.len() == 1 && all_decode::<IN>(
                    t@.columns[0],
                ) && decodings::<IN>(t@.columns[0]) == items,
                Err(e) => fails_with(r, e),
            },
    {
        let kb = window_key_bytes(ctx);
        match load_list::<IN>(backend, &self.handle, kb.as_slice()) {
            Ok((items, rows)) => {
                proof {
                    assert forall|i: int| 0 <= i < rows@.len() implies IN::decoding(
                        #[trigger] views(rows@)[i],
                    ) == Some(items@[i]) by {
                        assert(views(rows@)[i] == rows@[i]@);
                    }
                    assert(decodings::<IN>(views(rows@)) =~= items@);
                }
                let name = self.handle.duplicate().into_name();
                Ok(ImmutableTable::single(name, "element", rows))
            },
            Err(e) => Err(e.into_error()),
        }
    }
}

impl<IN: IndexValue, OUT, F: Fn(&ImmutableTable) -> OUT> IndexOps for ArrowWindow<IN, OUT, F> {
    closed spec fn wf(&self) -> bool {
        forall|t: &ImmutableTable| self.udf.requires((t,))
    }

    closed spec fn handle_name(&self) -> Seq<u8> {
        self.handle@
    }

    open spec fn pending(&self) -> Option<Write> {
        None
    }

    open spec fn keyed_at(&self, key: u64) -> bool {
        true
    }

    fn persist(&mut self, backend: &mut Backend) -> (r: ArconResult<()>)
        ensures
            final(self).spec_udf() == old(self).spec_udf(),
    {
        Ok(())
    }

    /// A window is named by its context: there is no active key to set.
    fn set_key(&mut self, backend: &mut Backend, key: u64)
        ensures
            final(self).spec_udf() == old(self).spec_udf(),
    {
    }

    /// Without a context there is no window to show: `table_of` gives the
    /// table of a window.
    fn table(&mut self, backend: &Backend) -> (r: ArconResult<Option<ImmutableTable>>)
        ensures
            r matches Ok(None),
            final(self).spec_udf() == old(self).spec_udf(),
    {
        Ok(None)
    }
}

impl<IN: IndexValue, OUT, F: Fn(&ImmutableTable) -> OUT> WindowIndex for ArrowWindow<IN, OUT, F> {
    type IN = IN;

    type OUT = OUT;

    /// Adds the encoded `element` at the end of the window's column. It
    /// fails, and changes nothing, where the stored column does not decode.
    fn on_element(&mut self, backend: &mut Backend, element: IN, ctx: WindowContext) -> (r:
        ArconResult<()>)
        ensures
            final(self).spec_udf() == old(self).spec_udf(),
            match read_list::<IN>(old(backend)@, old(self).handle_name(), window_key(ctx)) {
                Ok(items) => r is Ok && read_list::<IN>(
                    final(backend)@,
                    old(self).handle_name(),
                    window_key(ctx),
                ) == Ok::<Seq<IN>, StateError>(items.push(element)),
                Err(e) => fails_with(r, e),
            },
    {
        let kb = window_key_bytes(ctx);
        let (items, rows) = match load_list::<IN>(backend, &self.handle, kb.as_slice()) {
            Ok(loaded) => loaded,
            Err(e) => {
                return Err(e.into_error());
            },
        };
        let mut rows = rows;
        let bytes = element.encode();
        proof {
            assert(bytes.len() <= usize::MAX);
            IN::lemma_round_trip(element);
        }
        rows.push(bytes);
        store_list::<IN>(backend, &self.handle, kb.as_slice(), &rows, Ghost(items@.push(element)));
        Ok(())
    }

    /// What the function makes of the window's table. It fails where the
    /// stored column does not decode.
    fn result(&mut self, backend: &Backend, ctx: WindowContext) -> (r: ArconResult<OUT>)
        ensures
            final(self).spec_udf() == old(self).spec_udf(),
            match read_list::<IN>(backend@, old(self).handle_name(), window_key(ctx)) {
                Ok(items) => r matches Ok(out) && tabulated(
                    old(self).spec_udf(),
                    old(self).handle_name(),
                    items,
                    out,
                ),
                Err(e) => fails_with(r, e),
            },
    {
        match self.table_of(backend, ctx) {
            Ok(table) => {
                let t = &table;
                let out = (self.udf)(t);
                assert(self.udf.ensures((t,), out));
                Ok(out)
            },
            Err(e) => Err(e),
        }
    }

    fn clear(&mut self, backend: &mut Backend, ctx: WindowContext) -> (r: ArconResult<()>)
        ensures
            final(self).spec_udf() == old(self).spec_udf(),
    {
        let kb = window_key_bytes(ctx);
        backend.delete(&self.handle, kb.as_slice());
        Ok(())
    }
}

/// Whether `made` is what the functions of an incremental window may make of
/// the aggregate `found` and a new element: `init` of the element where
/// there is no aggregate yet, `agg` of the element and the aggregate where
/// there is one.
pub open spec fn aggregated<IN, OUT, I: Fn(IN) -> OUT, A: Fn(IN, &OUT) -> OUT>(
    init: I,
    agg: A,
    found: Option<OUT>,
    element: IN,
    made: OUT,
) -> bool {
    match found {
        None => init.ensures((element,), made),
        Some(acc) => agg.ensures((element, &acc), made),
    }
}

/// What taking an element into a window leaves behind: the functions made
/// some aggregate of what was found and the element, and that aggregate is
/// what is now read.
pub open spec fn took_in<IN, OUT, I: Fn(IN) -> OUT, A: Fn(IN, &OUT) -> OUT>(
    init: I,
    agg: A,
    found: Option<OUT>,
    element: IN,
    after: StateResult<Option<OUT>>,
) -> bool {
    exists|made: OUT|
        #[trigger] aggregated(init, agg, found, element, made) && after == Ok::<
            Option<OUT>,
            StateError,
        >(Some(made))
}

/// A window index that keeps one running aggregate per window.
#[verifier::reject_recursive_types(IN)]
#[verifier::reject_recursive_types(OUT)]
pub struct IncrementalWindow<IN, OUT: IndexValue, I: Fn(IN) -> OUT, A: Fn(IN, &OUT) -> OUT> {
    handle: Handle,
    init: I,
    agg: A,
    marker: PhantomData<(IN, OUT)>,
}

impl<IN, OUT: IndexValue, I: Fn(IN) -> OUT, A: Fn(IN, &OUT) -> OUT> IncrementalWindow<
    IN,
    OUT,
    I,
    A,
> {
    /// The function that makes the first aggregate of a window.
    pub closed spec fn spec_init(&self) -> I {
        self.init
    }

    /// The function that takes an element into the aggregate.
    pub closed spec fn spec_agg(&self) -> A {
        self.agg
    }

    /// An index that keeps its aggregates under the handle `name`. The first
    /// element of a window goes through `init`, every later one through
    /// `agg` together with the aggregate so far; both must take every input.
    pub fn new(name: &str, init: I, agg: A) -> (idx: Self)
        requires
            forall|x: IN| init.requires((x,)),
            forall|x: IN, acc: &OUT| agg.requires((x, acc)),
        ensures
            idx.wf(),
            idx.pending() is None,
            idx.handle_name() == vstd::utf8::encode_utf8(name@),
            idx.spec_init() == init,
            idx.spec_agg() == agg,
    {
        IncrementalWindow { handle: Handle::new(name), init, agg, marker: PhantomData }
    }

    fn load(&self, backend: &Backend, ctx: WindowContext) -> (r: StateResult<Option<OUT>>)
        requires
            backend.wf(),
        ensures
            r == read_aggregate::<OUT>(backend@, self.handle@, ctx),
    {
        let kb = window_key_bytes(ctx);
        match backend.get(&self.handle, kb.as_slice()) {
            None => Ok(None),
            Some(bytes) => match OUT::decode(bytes.as_slice()) {
                Some(v) => Ok(Some(v)),
                None => Err(StateError::Backend(BackendError::Encoding)),
            },
        }
    }
}

impl<IN, OUT: IndexValue, I: Fn(IN) -> OUT, A: Fn(IN, &OUT) -> OUT> IndexOps for IncrementalWindow<
    IN,
    OUT,
    I,
    A,
> {
    closed spec fn wf(&self) -> bool {
        &&& forall|x: IN| self.init.requires((x,))
        &&& forall|x: IN, acc: &OUT| self.agg.requires((x, acc))
    }

    closed spec fn handle_name(&self) -> Seq<u8> {
        self.handle@
    }

    open spec fn pending(&self) -> Option<Write> {
        None
    }

    open spec fn keyed_at(&self, key: u64) -> bool {
        true
    }

    fn persist(&mut self, backend: &mut Backend) -> (r: ArconResult<()>)
        ensures
            final(self).spec_init() == old(self).spec_init(),
            final(self).spec_agg() == old(self).spec_agg(),
    {
        Ok(())
    }

    /// A window is named by its context: there is no active key to set.
    fn set_key(&mut self, backend: &mut Backend, key: u64)
        ensures
            final(self).spec_init() == old(self).spec_init(),
            final(self).spec_agg() == old(self).spec_agg(),
    {
    }

    /// The index has no table.
    fn table(&mut self, backend: &Backend) -> (r: ArconResult<Option<ImmutableTable>>)
        ensures
            r matches Ok(None),
            final(self).spec_init() == old(self).spec_init(),
            final(self).spec_agg() == old(self).spec_agg(),
    {
        Ok(None)
    }
}

impl<IN, OUT: IndexValue, I: Fn(IN) -> OUT, A: Fn(IN, &OUT) -> OUT> WindowIndex for IncrementalWindow<
    IN,
    OUT,
    I,
    A,
> {
    type IN = IN;

    type OUT = OUT;

    /// Takes `element` into the window's aggregate. It fails, and changes
    /// nothing, where the stored aggregate does not decode.
    fn on_element(&mut self, backend: &mut Backend, element: IN, ctx: WindowContext) -> (r:
        ArconResult<()>)
        ensures
            final(self).spec_init() == old(self).spec_init(),
            final(self).spec_agg() == old(self).spec_agg(),
            match read_aggregate::<OUT>(old(backend)@, old(self).handle_name(), ctx) {
                Ok(found) => r is Ok && took_in(
                    old(self).spec_init(),
                    old(self).spec_agg(),
                    found,
                    element,
                    read_aggregate::<OUT>(final(backend)@, old(self).handle_name(), ctx),
                ),
                Err(e) => fails_with(r, e),
            },
    {
        let found = match self.load(backend, ctx) {
            Ok(found) => found,
            Err(e) => {
                return Err(e.into_error());
            },
        };
        let made = match &found {
            None => (self.init)(element),
            Some(acc) => (self.agg)(element, acc),
        };
        let bytes = made.encode();
        proof {
            assert(bytes.len() <= usize::MAX);
            OUT::lemma_round_trip(made);
            assert(aggregated(self.init, self.agg, found, element, made));
        }
        let kb = window_key_bytes(ctx);
        backend.put(&self.handle, kb.as_slice(), bytes);
        proof {
            assert(read_aggregate::<OUT>(backend@, self.handle@, ctx) == Ok::<
                Option<OUT>,
                StateError,
            >(Some(made)));
            assert(took_in(
                self.init,
                self.agg,
                found,
                element,
                read_aggregate::<OUT>(backend@, self.handle@, ctx),
            ));
        }
        Ok(())
    }

    /// The window's aggregate. It fails where no element has come, and where
    /// the stored aggregate does not decode.
    fn result(&mut self, backend: &Backend, ctx: WindowContext) -> (r: ArconResult<OUT>)
        ensures
            final(self).spec_init() == old(self).spec_init(),
            final(self).spec_agg() == old(self).spec_agg(),
            match read_aggregate::<OUT>(backend@, old(self).handle_name(), ctx) {
                Ok(Some(acc)) => r matches Ok(out) && out == acc,
                Ok(None) => r matches Err(err) && err.message() == empty_window_text()@,
                Err(e) => fails_with(r, e),
            },
    {
        match self.load(backend, ctx) {
            Ok(Some(acc)) => Ok(acc),
            Ok(None) => Err(Error::new_arcon("the window holds no element".to_owned())),
            Err(e) => Err(e.into_error()),
        }
    }

    fn clear(&mut self, backend: &mut Backend, ctx: WindowContext) -> (r: ArconResult<()>)
        ensures
            final(self).spec_init() == old(self).spec_init(),
            final(self).spec_agg() == old(self).spec_agg(),
    {
        let kb = window_key_bytes(ctx);
        backend.delete(&self.handle, kb.as_slice());
        Ok(())
    }
}

} // verus!
