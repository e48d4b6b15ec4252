//! Operators made of a function: what one element of a stream becomes.
//!
//! An operator takes one element and gives out the elements that follow from
//! it, in order. What it gives out is stated over what the function may
//! return, so it holds of every function that is handed in.

use crate::operator::ArconElement;
use core::marker::PhantomData;
use vstd::prelude::*;

verus! {

/// An operator without state: one element in, the elements that follow from
/// it out.
pub trait Operator {
    type IN;

    type OUT;

    /// Whether the operator takes every element.
    spec fn ready(&self) -> bool;

    /// Whether `out` is what the operator may give out for `element`.
    spec fn gives(&self, element: ArconElement<Self::IN>, out: Seq<ArconElement<Self::OUT>>) -> bool;

    /// Takes one element and gives out what follows from it.
    fn handle_element(&self, element: ArconElement<Self::IN>) -> (out: Vec<ArconElement<Self::OUT>>)
        requires
            self.ready(),
        ensures
            self.gives(element, out@),
    ;
}

/// The elements of `v` in the opposite order.
pub fn reversed<T>(v: Vec<T>) -> (r: Vec<T>)
    ensures
        r@.len() == v@.len(),
        forall|i: int| 0 <= i < r@.len() ==> r@[i] == v@[v@.len() - 1 - i],
{
    let mut v = v;
    let ghost given = v@;
    let mut r: Vec<T> = Vec::new();
    while v.len() > 0
        invariant
            v@.len() + r@.len() == given.len(),
            v@ == given.subrange(0, v@.len() as int),
            forall|i: int| 0 <= i < r@.len() ==> r@[i] == given[given.len() - 1 - i],
        decreases v@.len(),
    {
        let ghost before = v@;
        match v.pop() {
            Some(x) => {
                assert(x == given[before.len() - 1]);
                r.push(x);
                assert(v@ =~= given.subrange(0, v@.len() as int));
            },
            None => {},
        }
    }
    r
}

/// The operator that gives out, for each element, what `f` makes of it.
#[verifier::reject_recursive_types(IN)]
#[verifier::reject_recursive_types(OUT)]
pub struct MapEach<IN, OUT, F: Fn(IN) -> OUT> {
    pub f: F,
    pub marker: PhantomData<(IN, OUT)>,
}

impl<IN, OUT, F: Fn(IN) -> OUT> MapEach<IN, OUT, F> {
    /// The operator of the function `f`. It is ready where `f` takes every
    /// input.
    pub fn new(f: F) -> (op: Self)
        ensures
            op.f == f,
            (forall|x: IN| f.requires((x,))) ==> op.ready(),
    {
        MapEach { f, marker: PhantomData }
    }
}

/// Whether `out` is one element: what `f` may make of the data of
/// `element`, with the timestamp of `element`.
pub open spec fn mapped<IN, OUT, F: Fn(IN) -> OUT>(
    f: F,
    element: ArconElement<IN>,
    out: Seq<ArconElement<OUT>>,
) -> bool {
    &&& out.len() == 1
    &&& f.ensures((element.data,), out[0].data)
    &&& out[0].timestamp == element.timestamp
}

impl<IN, OUT, F: Fn(IN) -> OUT> Operator for MapEach<IN, OUT, F> {
    type IN = IN;

    type OUT = OUT;

    open spec fn ready(&self) -> bool {
        forall|x: IN| self.f.requires((x,))
    }

    open spec fn gives(&self, element: ArconElement<IN>, out: Seq<ArconElement<OUT>>) -> bool {
        mapped(self.f, element, out)
    }

    fn handle_element(&self, element: ArconElement<IN>) -> (out: Vec<ArconElement<OUT>>) {
        let timestamp = element.timestamp;
        let data = (self.f)(element.data);
        let mut out: Vec<ArconElement<OUT>> = Vec::new();
        out.push(ArconElement { data, timestamp });
        out
    }
}

/// The operator that gives out each element as `f` has changed it. The
/// function takes the data and hands the changed data back.
#[verifier::reject_recursive_types(IN)]
pub struct MapInPlace<IN, F: Fn(IN) -> IN> {
    pub f: F,
    pub marker: PhantomData<IN>,
}

impl<IN, F: Fn(IN) -> IN> MapInPlace<IN, F> {
    /// The operator of the function `f`. It is ready where `f` takes every
    /// input.
    pub fn new(f: F) -> (op: Self)
        ensures
            op.f == f,
            (forall|x: IN| f.requires((x,))) ==> op.ready(),
    {
        MapInPlace { f, marker: PhantomData }
    }
}

impl<IN, F: Fn(IN) -> IN> Operator for MapInPlace<IN, F> {
    type IN = IN;

    type OUT = IN;

    open spec fn ready(&self) -> bool {
        forall|x: IN| self.f.requires((x,))
    }

    open spec fn gives(&self, element: ArconElement<IN>, out: Seq<ArconElement<IN>>) -> bool {
        mapped(self.f, element, out)
    }

    fn handle_element(&self, element: ArconElement<IN>) -> (out: Vec<ArconElement<IN>>) {
        let timestamp = element.timestamp;
        let data = (self.f)(element.data);
        let mut out: Vec<ArconElement<IN>> = Vec::new();
        out.push(ArconElement { data, timestamp });
        out
    }
}

/// The operator that gives out the elements of which `f` says yes, as they
/// are, and nothing for the others.
#[verifier::reject_recursive_types(IN)]
pub struct Filter<IN, F: Fn(&IN) -> bool> {
    pub f: F,
    pub marker: PhantomData<IN>,
}

impl<IN, F: Fn(&IN) -> bool> Filter<IN, F> {
    /// The operator of the function `f`. It is ready where `f` takes every
    /// input.
    pub fn new(f: F) -> (op: Self)
        ensures
            op.f == f,
            (forall|x: &IN| f.requires((x,))) ==> op.ready(),
    {
        Filter { f, marker: PhantomData }
    }
}

/// Whether `out` is `element` itself where `f` may say yes of its data, and
/// nothing where `f` may say no.
pub open spec fn filtered<IN, F: Fn(&IN) -> bool>(
    f: F,
    element: ArconElement<IN>,
    out: Seq<ArconElement<IN>>,
) -> bool {
    exists|kept: bool|
        #[trigger] f.ensures((&element.data,), kept) && out == if kept {
            seq![element]
        } else {
            Seq::<ArconElement<IN>>::empty()
        }
}

impl<IN, F: Fn(&IN) -> bool> Operator for Filter<IN, F> {
    type IN = IN;

    type OUT = IN;

    open spec fn ready(&self) -> bool {
        forall|x: &IN| self.f.requires((x,))
    }

    open spec fn gives(&self, element: ArconElement<IN>, out: Seq<ArconElement<IN>>) -> bool {
        filtered(self.f, element, out)
    }

    fn handle_element(&self, element: ArconElement<IN>) -> (out: Vec<ArconElement<IN>>) {
        let kept = (self.f)(&element.data);
        assert(self.f.ensures((&element.data,), kept));
        let mut out: Vec<ArconElement<IN>> = Vec::new();
        if kept {
            out.push(element);
            assert(out@ =~= seq![element]);
        } else {
            assert(out@ =~= Seq::<ArconElement<IN>>::empty());
        }
        out
    }
}

/// The operator that gives out, for each element, the items that `f` makes
/// of it, in their order.
#[verifier::reject_recursive_types(IN)]
#[verifier::reject_recursive_types(OUT)]
pub struct FlatMap<IN, OUT, F: Fn(IN) -> Vec<OUT>> {
    pub f: F,
    pub marker: PhantomData<(IN, OUT)>,
}

impl<IN, OUT, F: Fn(IN) -> Vec<OUT>> FlatMap<IN, OUT, F> {
    /// The operator of the function `f`. It is ready where `f` takes every
    /// input.
    pub fn new(f: F) -> (op: Self)
        ensures
            op.f == f,
            (forall|x: IN| f.requires((x,))) ==> op.ready(),
    {
        FlatMap { f, marker: PhantomData }
    }
}

/// Whether `out` holds `items`, one element each and in their order, all
/// with the timestamp `timestamp`.
pub open spec fn stamped<OUT>(
    items: Seq<OUT>,
    timestamp: Option<u64>,
    out: Seq<ArconElement<OUT>>,
) -> bool {
    &&& out.len() == items.len()
    &&& forall|i: int|
        0 <= i < out.len() ==> (#[trigger] out[i]).data == items[i] && out[i].timestamp
            == timestamp
}

/// Whether `out` holds the items that `f` may make of the data of `element`,
/// in their order, each with the timestamp of `element`.
pub open spec fn flat_mapped<IN, OUT, F: Fn(IN) -> Vec<OUT>>(
    f: F,
    element: ArconElement<IN>,
    out: Seq<ArconElement<OUT>>,
) -> bool {
    exists|items: Vec<OUT>|
        #[trigger] f.ensures((element.data,), items) && stamped(items@, element.timestamp, out)
}

impl<IN, OUT, F: Fn(IN) -> Vec<OUT>> Operator for FlatMap<IN, OUT, F> {
    type IN = IN;

    type OUT = OUT;

    open spec fn ready(&self) -> bool {
        forall|x: IN| self.f.requires((x,))
    }

    open spec fn gives(&self, element: ArconElement<IN>, out: Seq<ArconElement<OUT>>) -> bool {
        flat_mapped(self.f, element, out)
    }

    fn handle_element(&self, element: ArconElement<IN>) -> (out: Vec<ArconElement<OUT>>) {
        let timestamp = element.timestamp;
        let items = (self.f)(element.data);
        assert(self.f.ensures((element.data,), items));
        let ghost made = items@;
        let mut rest = reversed(items);
        let ghost turned = rest@;
        let mut out: Vec<ArconElement<OUT>> = Vec::new();
        while rest.len() > 0
            invariant
                turned.len() == made.len(),
                forall|i: int| 0 <= i < turned.len() ==> turned[i] == made[made.len() - 1 - i],
                rest@ == turned.subrange(0, rest@.len() as int),
                out@.len() + rest@.len() == made.len(),
                forall|i: int|
                    0 <= i < out@.len() ==> (#[trigger] out@[i]).data == made[i] && out@[i].timestamp
                        == timestamp,
            decreases rest@.len(),
        {
            let ghost before = rest@;
            match rest.pop() {
                Some(data) => {
                    assert(data == turned[before.len() - 1]);
                    out.push(ArconElement { data, timestamp });
                    assert(rest@ =~= turned.subrange(0, rest@.len() as int));
                },
                None => {},
            }
        }
        assert(stamped(made, timestamp, out@));
        out
    }
}

/// What a map operator is ready for and what it gives out, said over its
/// function.
pub proof fn lemma_map_each<IN, OUT, F: Fn(IN) -> OUT>(
    operator: MapEach<IN, OUT, F>,
    element: ArconElement<IN>,
    out: Seq<ArconElement<OUT>>,
)
    ensures
        operator.ready() == (forall|x: IN| operator.f.requires((x,))),
        operator.gives(element, out) == mapped(operator.f, element, out),
{
}

/// What an operator that changes elements in place is ready for and what it
/// gives out, said over its function.
pub proof fn lemma_map_in_place<IN, F: Fn(IN) -> IN>(
    operator: MapInPlace<IN, F>,
    element: ArconElement<IN>,
    out: Seq<ArconElement<IN>>,
)
    ensures
        operator.ready() == (forall|x: IN| operator.f.requires((x,))),
        operator.gives(element, out) == mapped(operator.f, element, out),
{
}

/// What a filter is ready for and what it gives out, said over its function.
pub proof fn lemma_filter<IN, F: Fn(&IN) -> bool>(
    operator: Filter<IN, F>,
    element: ArconElement<IN>,
    out: Seq<ArconElement<IN>>,
)
    ensures
        operator.ready() == (forall|x: &IN| operator.f.requires((x,))),
        operator.gives(element, out) == filtered(operator.f, element, out),
{
}

/// What a flatmap is ready for and what it gives out, said over its
/// function.
pub proof fn lemma_flat_map<IN, OUT, F: Fn(IN) -> Vec<OUT>>(
    operator: FlatMap<IN, OUT, F>,
    element: ArconElement<IN>,
    out: Seq<ArconElement<OUT>>,
)
    ensures
        operator.ready() == (forall|x: IN| operator.f.requires((x,))),
        operator.gives(element, out) == flat_mapped(operator.f, element, out),
{
}

} // verus!
