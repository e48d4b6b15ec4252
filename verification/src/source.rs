//! Sources: where the elements of a stream come from.

use crate::error::SourceResult;
use vstd::prelude::*;
use vstd::std_specs::iter::IteratorSpec;

verus! {

/// What a source answers when it is polled.
#[derive(Debug, Clone)]
pub enum Poll<A> {
    /// The value `A` is available.
    Ready(A),
    /// There is no record to process at the moment.
    Pending,
    /// The source is finished.
    Done,
}

/// A source of a stream.
pub trait Source {
    type Item;

    /// Asks the source for its next item.
    fn poll_next(&mut self) -> (r: SourceResult<Poll<Self::Item>>);

    /// Sets the offset from which a source that can be replayed goes on.
    fn set_offset(&mut self, offset: usize);
}

/// Every iterator is a source: it hands out its items one by one and is done
/// when it has none left. It is never pending, it never fails, and it cannot
/// be replayed: an offset is ignored.
impl<I: Iterator> Source for I {
    type Item = I::Item;

    fn poll_next(&mut self) -> (r: SourceResult<Poll<Self::Item>>)
        ensures
            r matches Ok(Ok(poll)) && !(poll is Pending),
            (*old(self)).obeys_prophetic_iter_laws() ==> (*final(self)).obeys_prophetic_iter_laws()
                && if (*old(self)).remaining().len() > 0 {
                poll_ready(r, (*old(self)).remaining()[0]) && (*final(self)).remaining() == (*old(
                    self,
                )).remaining().drop_first()
            } else {
                poll_done(r) && (*final(self)).remaining() == (*old(self)).remaining()
            },
    {
        match self.next() {
            Some(item) => Ok(Ok(Poll::Ready(item))),
            None => Ok(Ok(Poll::Done)),
        }
    }

    fn set_offset(&mut self, offset: usize)
        ensures
            *final(self) == *old(self),
    {
    }
}

/// Whether `r` hands out `item`.
pub open spec fn poll_ready<A>(r: SourceResult<Poll<A>>, item: A) -> bool {
    r matches Ok(Ok(Poll::Ready(got))) && got == item
}

/// Whether `r` says that the source is finished.
pub open spec fn poll_done<A>(r: SourceResult<Poll<A>>) -> bool {
    r matches Ok(Ok(Poll::Done))
}

} // verus!
