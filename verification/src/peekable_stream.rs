//! An iterator whose next item can be looked at, and then taken without
//! unwrapping.
use crate::option::OptionUtil;
use vstd::prelude::*;
use vstd::std_specs::iter::IteratorSpec;

verus! {

/// The items a stream has still to give: the item looked at, if any, then
/// what the inner iterator has left. A look that found the end leaves
/// nothing.
pub open spec fn stream_items<T>(peeked: Option<Option<T>>, rest: Seq<T>) -> Seq<T> {
    match peeked {
        None => rest,
        Some(None) => Seq::empty(),
        Some(Some(x)) => seq![x] + rest,
    }
}

/// A look that found the end is only kept while the inner iterator is
/// spent.
pub open spec fn stream_consistent<T>(peeked: Option<Option<T>>, rest: Seq<T>) -> bool {
    peeked is Some && peeked->0 is None ==> rest.len() == 0
}

/// One call of `next`, over the items still to come before and after it:
/// the first of them leaves and is returned, or, when nothing is left,
/// `None`.
pub open spec fn next_step<T>(before: Seq<T>, r: Option<T>, after: Seq<T>) -> bool {
    if before.len() > 0 {
        r == Some(before[0]) && after =~= before.drop_first()
    } else {
        r is None && after.len() == 0
    }
}

/// One look with `peek` whose proxy was let go without taking, over the
/// items still to come before and after it: the first of them is shown, or
/// `None` when nothing is left, and they stay as they were.
pub open spec fn peek_step<T>(before: Seq<T>, shown: Option<T>, after: Seq<T>) -> bool {
    &&& after =~= before
    &&& shown == if before.len() > 0 {
        Some(before[0])
    } else {
        None
    }
}

/// What is still to come after `k` reads.
proof fn lemma_items_after_reads<T>(items: Seq<Seq<T>>, outs: Seq<Option<T>>, k: int)
    requires
        items.len() == outs.len() + 1,
        forall|j: int| 0 <= j < outs.len() ==> #[trigger] next_step(items[j], outs[j], items[j + 1]),
        0 <= k <= outs.len(),
    ensures
        items[k] == if k <= items[0].len() {
            items[0].subrange(k, items[0].len() as int)
        } else {
            Seq::<T>::empty()
        },
    decreases k,
{
    let first = items[0];
    if k == 0 {
        assert(first.subrange(0, first.len() as int) =~= first);
    } else {
        lemma_items_after_reads(items, outs, k - 1);
        assert(next_step(items[k - 1], outs[k - 1], items[(k - 1) + 1]));
        if k <= first.len() {
            assert(first.subrange(k - 1, first.len() as int).drop_first() =~= first.subrange(k, first.len() as int));
        } else {
            assert(items[k] =~= Seq::<T>::empty());
        }
    }
}

/// Calls of `next` give the items still to come, in order, and after them
/// `None` on every call. For a stream fresh from `new` (or
/// `peekable_stream`), the items still to come are exactly those its inner
/// iterator has left.
pub proof fn lemma_reads_yield_items<T>(items: Seq<Seq<T>>, outs: Seq<Option<T>>)
    requires
        items.len() == outs.len() + 1,
        forall|j: int| 0 <= j < outs.len() ==> #[trigger] next_step(items[j], outs[j], items[j + 1]),
    ensures
        forall|k: int|
            0 <= k < outs.len() ==> #[trigger] outs[k] == if k < items[0].len() {
                Some(items[0][k])
            } else {
                None
            },
        items[outs.len() as int] == if outs.len() <= items[0].len() {
            items[0].subrange(outs.len() as int, items[0].len() as int)
        } else {
            Seq::<T>::empty()
        },
{
    lemma_items_after_reads(items, outs, outs.len() as int);
    assert forall|k: int|
        0 <= k < outs.len() implies #[trigger] outs[k] == if k < items[0].len() {
            Some(items[0][k])
        } else {
            None
        } by {
        lemma_items_after_reads(items, outs, k);
        assert(next_step(items[k], outs[k], items[k + 1]));
    }
}

/// Looks that take nothing consume nothing: however many of them there are,
/// each shows the same first item, and the items still to come stay as they
/// were.
pub proof fn lemma_peeks_consume_nothing<T>(items: Seq<Seq<T>>, shown: Seq<Option<T>>)
    requires
        items.len() == shown.len() + 1,
        forall|j: int| 0 <= j < shown.len() ==> #[trigger] peek_step(items[j], shown[j], items[j + 1]),
    ensures
        forall|k: int| 0 <= k < items.len() ==> #[trigger] items[k] == items[0],
        forall|k: int|
            0 <= k < shown.len() ==> #[trigger] shown[k] == if items[0].len() > 0 {
                Some(items[0][0])
            } else {
                None
            },
    decreases shown.len(),
{
    if shown.len() > 0 {
        let n = shown.len() - 1;
        lemma_peeks_consume_nothing(items.take(n + 1), shown.take(n));
        assert(peek_step(items[n], shown[n], items[n + 1]));
        assert forall|k: int| 0 <= k < items.len() implies #[trigger] items[k] == items[0] by {
            assert(items.take(n + 1)[0] == items[0]);
            if k <= n {
                assert(items.take(n + 1)[k] == items.take(n + 1)[0]);
            } else {
                assert(items.take(n + 1)[n] == items.take(n + 1)[0]);
                assert(items.take(n + 1)[n] == items[n]);
            }
        }
        assert forall|k: int|
            0 <= k < shown.len() implies #[trigger] shown[k] == if items[0].len() > 0 {
                Some(items[0][0])
            } else {
                None
            } by {
            assert(peek_step(items[k], shown[k], items[k + 1]));
            if k < n {
                assert(shown.take(n)[k] == shown[k]);
            }
        }
    }
}

pub trait IntoPeekableStream<I: Iterator> {
    fn peekable_stream(self) -> PeekableStream<I>;
}

impl<I: Iterator> IntoPeekableStream<I> for I {
    fn peekable_stream(self) -> (r: PeekableStream<I>)
        ensures
            r.inner() == self,
            r.peeked_view() is None,
            stream_items(r.peeked_view(), r.inner().remaining()) == self.remaining(),
    {
        PeekableStream::wrap(self)
    }
}

pub struct PeekableStream<I: Iterator> {
    iter: I,
    /// The item looked at and not yet taken: `Some(None)` when the look
    /// found the end.
    peeked: Option<Option<I::Item>>,
}

impl<I> PeekableStream<I> where I: Iterator {
    /// The inner iterator.
    pub closed spec fn inner(self) -> I {
        self.iter
    }

    /// The item looked at and not yet taken, if any.
    pub closed spec fn peeked_view(self) -> Option<Option<I::Item>> {
        self.peeked
    }

    fn wrap(iter: I) -> (r: Self)
        ensures
            r.inner() == iter,
            r.peeked_view() is None,
    {
        Self { iter, peeked: None }
    }

    pub fn new<J: Into<I>>(iter: J) -> (r: Self)
        ensures
            call_ensures(J::into, (iter,), r.inner()),
            r.peeked_view() is None,
            stream_items(r.peeked_view(), r.inner().remaining()) == r.inner().remaining(),
    {
        Self::wrap(iter.into())
    }

    /// The next item, taking the one looked at if there is one.
    pub fn next(&mut self) -> (r: Option<I::Item>)
        requires
            old(self).inner().obeys_prophetic_iter_laws(),
            stream_consistent(old(self).peeked_view(), old(self).inner().remaining()),
        ensures
            final(self).inner().obeys_prophetic_iter_laws(),
            stream_consistent(final(self).peeked_view(), final(self).inner().remaining()),
            next_step(
                stream_items(old(self).peeked_view(), old(self).inner().remaining()),
                r,
                stream_items(final(self).peeked_view(), final(self).inner().remaining()),
            ),
    {
        match self.peeked.take() {
            Some(v) => v,
            None => self.iter.next(),
        }
    }

    /// Looks at the next item without taking it.
    fn fill_peek(&mut self) -> (r: Option<&I::Item>)
        requires
            old(self).inner().obeys_prophetic_iter_laws(),
            stream_consistent(old(self).peeked_view(), old(self).inner().remaining()),
        ensures
            final(self).inner().obeys_prophetic_iter_laws(),
            stream_consistent(final(self).peeked_view(), final(self).inner().remaining()),
            final(self).peeked_view() is Some,
            stream_items(final(self).peeked_view(), final(self).inner().remaining()) == stream_items(
                old(self).peeked_view(),
                old(self).inner().remaining(),
            ),
            r == match final(self).peeked_view()->0 {
                Some(x) => Some(&x),
                None => None::<&I::Item>,
            },
    {
        if self.peeked.is_none() {
            let item = self.iter.next();
            self.peeked = Some(item);
        }
        match &self.peeked {
            Some(Some(item)) => Some(item),
            _ => None,
        }
    }

    /// Looks at the next item; the proxy that comes back can take it.
    pub fn peek(&mut self) -> (r: Option<ItemProxy<'_, I>>)
        requires
            old(self).inner().obeys_prophetic_iter_laws(),
            stream_consistent(old(self).peeked_view(), old(self).inner().remaining()),
        ensures
            ({
                let before = stream_items(old(self).peeked_view(), old(self).inner().remaining());
                match r {
                    Some(p) => {
                        &&& before.len() > 0
                        &&& p.item() == before[0]
                        &&& p.owner().inner().obeys_prophetic_iter_laws()
                        &&& p.owner().peeked_view() == Some(Some(p.item()))
                        &&& stream_consistent(p.owner().peeked_view(), p.owner().inner().remaining())
                        &&& stream_items(p.owner().peeked_view(), p.owner().inner().remaining())
                            == before
                        &&& *final(self) == *final(p.handle())
                        &&& peek_step(
                            before,
                            Some(p.item()),
                            stream_items(p.owner().peeked_view(), p.owner().inner().remaining()),
                        )
                    },
                    None => {
                        &&& before.len() == 0
                        &&& final(self).inner().obeys_prophetic_iter_laws()
                        &&& stream_consistent(
                            final(self).peeked_view(),
                            final(self).inner().remaining(),
                        )
                        &&& stream_items(final(self).peeked_view(), final(self).inner().remaining()).len()
                            == 0
                        &&& peek_step(
                            before,
                            None,
                            stream_items(final(self).peeked_view(), final(self).inner().remaining()),
                        )
                    },
                }
            }),
    {
        let present = self.fill_peek().erase_some();
        if present.is_some() {
            Some(ItemProxy::new(self))
        } else {
            None
        }
    }
}

/// A type returned by `peek` from `PeekableStream`s when the peeked value is
/// present. Can be consumed with `take()` to advance the stream, returning the
/// peeked value without needing `unwrap()`.
pub struct ItemProxy<'a, I: Iterator> {
    iter: &'a mut PeekableStream<I>,
}

impl<'a, I> ItemProxy<'a, I> where I: Iterator {
    #[verifier::type_invariant]
    spec fn inv(self) -> bool {
        self.iter.peeked is Some && self.iter.peeked->0 is Some
    }

    /// The stream, as it is now.
    pub closed spec fn owner(self) -> PeekableStream<I> {
        *self.iter
    }

    /// The borrow of the stream that this proxy holds.
    pub closed spec fn handle(self) -> &'a mut PeekableStream<I> {
        self.iter
    }

    /// The item looked at.
    pub closed spec fn item(self) -> I::Item {
        self.iter.peeked->0->0
    }

    /// Once the proxy is done with without taking the item, the stream is
    /// what the proxy last saw: nothing was consumed.
    pub proof fn lemma_released(self)
        requires
            has_resolved(self),
        ensures
            *final(self.handle()) == self.owner(),
    {
    }

    fn new(iter: &'a mut PeekableStream<I>) -> (r: Self)
        requires
            old(iter).peeked is Some && old(iter).peeked->0 is Some,
        ensures
            r.owner() == *old(iter),
            r.item() == old(iter).peeked->0->0,
            *final(iter) == *final(r.handle()),
    {
        Self { iter }
    }

    /// Advances the symbol stream and returns the peeked symbol.
    pub fn take(self) -> (r: I::Item)
        ensures
            r == self.item(),
            final(self.handle()).peeked_view() is None,
            final(self.handle()).inner() == self.owner().inner(),
            stream_items(final(self.handle()).peeked_view(), final(self.handle()).inner().remaining())
                == stream_items(self.owner().peeked_view(), self.owner().inner().remaining()).drop_first(),
    {
        proof {
            use_type_invariant(&self);
        }
        let ItemProxy { iter } = self;
        let next = iter.peeked.take();
        match next {
            Some(Some(item)) => item,
            _ => {
                loop
                    invariant
                        false,
                    decreases 0nat,
                {
                }
            },
        }
    }
}

impl<'a, I: Iterator> core::ops::Deref for ItemProxy<'a, I> {
    type Target = I::Item;

    fn deref(&self) -> (r: &I::Item)
        ensures
            *r == self.item(),
    {
        proof {
            use_type_invariant(self);
        }
        match &self.iter.peeked {
            Some(Some(item)) => item,
            _ => {
                loop
                    invariant
                        false,
                    decreases 0nat,
                {
                }
            },
        }
    }
}

} // verus!
