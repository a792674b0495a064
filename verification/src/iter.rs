//! Helpers on iterators: collecting results, and interleaving with
//! separators.
use vstd::prelude::*;
use vstd::std_specs::iter::IteratorSpec;

verus! {

/// `std`'s `impl<T> From<T> for T`, whose `from` its documentation says
/// "returns the argument unchanged". Trusted: the result is the argument.
pub assume_specification<Value>[ <Value as std::convert::From<Value>>::from ](value: Value) -> (r: Value)
    ensures
        r == value,
;

/// The outcome of collecting `s`: every `Ok` value in order, or the first
/// error.
pub open spec fn collect_spec<T, E>(s: Seq<Result<T, E>>) -> Result<Seq<T>, E>
    decreases s.len(),
{
    if s.len() == 0 {
        Ok(Seq::empty())
    } else {
        match s[0] {
            Ok(t) => prefixed(seq![t], collect_spec(s.drop_first())),
            Err(e) => Err(e),
        }
    }
}

/// `acc` in front of the values of `r`, or the error of `r`.
pub open spec fn prefixed<T, E>(acc: Seq<T>, r: Result<Seq<T>, E>) -> Result<Seq<T>, E> {
    match r {
        Ok(ts) => Ok(acc + ts),
        Err(e) => Err(e),
    }
}

proof fn lemma_prefixed_push<T, E>(acc: Seq<T>, t: T)
    ensures
        forall|r: Result<Seq<T>, E>| #[trigger] prefixed(acc, prefixed(seq![t], r)) == prefixed(acc.push(t), r),
{
    assert forall|r: Result<Seq<T>, E>| #[trigger] prefixed(acc, prefixed(seq![t], r)) == prefixed(acc.push(t), r) by {
        if let Ok(ts) = r {
            assert(acc + (seq![t] + ts) =~= acc.push(t) + ts);
        }
    }
}

/// The `Ok` values in order, or the first error.
fn collect_vec_of<T, E, I: Iterator<Item = Result<T, E>>>(source: I) -> (r: Result<Vec<T>, E>)
    requires
        source.obeys_prophetic_iter_laws(),
        source.decrease() is Some,
    ensures
        match (r, collect_spec(source.remaining())) {
            (Ok(v), Ok(s)) => v@ == s,
            (Err(e), Err(f)) => e == f,
            _ => false,
        },
{
    let ghost init = source.remaining();
    let mut iter = source;
    let mut acc: Vec<T> = Vec::new();
    loop
        invariant
            iter.obeys_prophetic_iter_laws(),
            iter.decrease() is Some,
            init == source.remaining(),
            collect_spec(init) == prefixed(acc@, collect_spec(iter.remaining())),
        decreases iter.decrease()->0,
    {
        let ghost rem = iter.remaining();
        match iter.next() {
            None => {
                assert(collect_spec(rem) == Ok::<Seq<T>, E>(Seq::empty()));
                assert(acc@ + Seq::<T>::empty() == acc@);
                return Ok(acc);
            },
            Some(Ok(t)) => {
                let ghost old_acc = acc@;
                acc.push(t);
                proof {
                    lemma_prefixed_push::<T, E>(old_acc, t);
                }
            },
            Some(Err(e)) => {
                return Err(e);
            },
        }
    }
}

/// Collecting an iterator of results: all the values, or the first error.
pub trait CollectResult<T, E>: Iterator<Item = Result<T, E>> + Sized {
    /// The `Ok` values in order, converted into `C`, or the first error.
    /// The target is built with `From<Vec<T>>` rather than `FromIterator<T>`:
    /// Verus takes a generic specification of `FromIterator::from_iter` only
    /// as an external trait specification, so a call through that bound
    /// cannot be verified.
    fn collect_result<C: From<Vec<T>>>(self) -> (r: Result<C, E>)
        requires
            self.obeys_prophetic_iter_laws(),
            self.decrease() is Some,
        ensures
            match (r, collect_spec(self.remaining())) {
                (Ok(c), Ok(s)) => exists|v: Vec<T>| #[trigger] v@ == s && call_ensures(C::from, (v,), c),
                (Err(e), Err(f)) => e == f,
                _ => false,
            },
    ;

    /// The `Ok` values in order, or the first error.
    fn collect_result_vec(self) -> (r: Result<Vec<T>, E>)
        requires
            self.obeys_prophetic_iter_laws(),
            self.decrease() is Some,
        ensures
            match (r, collect_spec(self.remaining())) {
                (Ok(v), Ok(s)) => v@ == s,
                (Err(e), Err(f)) => e == f,
                _ => false,
            },
    ;
}

impl<T, E, I: Iterator<Item = Result<T, E>>> CollectResult<T, E> for I {
    fn collect_result<C: From<Vec<T>>>(self) -> (r: Result<C, E>) {
        match collect_vec_of(self) {
            Ok(v) => {
                let ghost collected = v;
                let c = C::from(v);
                // `collected` witnesses the vector in the postcondition.
                assert(collected@ == collected@ && call_ensures(C::from, (collected,), c));
                Ok(c)
            },
            Err(e) => Err(e),
        }
    }

    fn collect_result_vec(self) -> (r: Result<Vec<T>, E>) {
        collect_vec_of(self)
    }
}

/// `out` is `items` with a separator between each two neighbours, every
/// separator being a value that `f` may return.
pub open spec fn is_joined<T, F: FnMut() -> T>(items: Seq<T>, out: Seq<T>, f: F) -> bool {
    &&& out.len() == if items.len() == 0 {
        0
    } else {
        2 * items.len() - 1
    }
    &&& forall|k: int| 0 <= k < items.len() ==> #[trigger] out[2 * k] == items[k]
    &&& forall|k: int| 0 <= 2 * k + 1 < out.len() ==> call_ensures(f, (), #[trigger] out[2 * k + 1])
}

/// The items still to come from a joining iterator: the held item, if any,
/// then what the inner iterator has left.
pub open spec fn pending<T>(next: Option<T>, rest: Seq<T>) -> Seq<T> {
    match next {
        Some(x) => seq![x] + rest,
        None => Seq::empty(),
    }
}

struct JoinWithImpl<I, T, F> {
    iter: I,
    next: Option<T>,
    take_from_sep: bool,
    sep_generator: F,
}

/// Nothing is held and no separator is due: the joining is over.
spec fn spent<I, T, F>(s: JoinWithImpl<I, T, F>) -> bool {
    s.next is None && !s.take_from_sep
}

/// What one call of `next` keeps of spentness: a spent iterator returns
/// `None`, and a `None` leaves the iterator as it was, spent.
spec fn join_step<I, T, F>(before: JoinWithImpl<I, T, F>, r: Option<T>, after: JoinWithImpl<I, T, F>) -> bool {
    &&& spent(before) ==> r is None
    &&& r is None ==> after == before && spent(after)
}

/// Once a joining iterator has returned `None`, every later call returns
/// `None` and leaves it unchanged, inner iterator and separator generator
/// included.
proof fn lemma_join_stays_spent<I, T, F>(states: Seq<JoinWithImpl<I, T, F>>, outs: Seq<Option<T>>, k: int, j: int)
    requires
        states.len() == outs.len() + 1,
        forall|i: int| 0 <= i < outs.len() ==> #[trigger] join_step(states[i], outs[i], states[i + 1]),
        0 <= k <= j < outs.len(),
        outs[k] is None,
    ensures
        outs[j] is None,
        states[j + 1] == states[k],
    decreases j - k,
{
    assert(join_step(states[k], outs[k], states[k + 1]));
    if j > k {
        lemma_join_stays_spent(states, outs, k, j - 1);
        assert(join_step(states[(j - 1) + 1], outs[j], states[j + 1]));
    }
}

impl<I: Iterator<Item = T>, T, F: FnMut() -> T> JoinWithImpl<I, T, F> {
    /// The next item or separator: a separator comes between each two items.
    fn next(&mut self) -> (r: Option<T>)
        requires
            old(self).iter.obeys_prophetic_iter_laws(),
            call_requires(old(self).sep_generator, ()),
            old(self).take_from_sep ==> old(self).next is Some,
            old(self).next is None ==> old(self).iter.remaining().len() == 0,
        ensures
            final(self).iter.obeys_prophetic_iter_laws(),
            final(self).sep_generator == old(self).sep_generator,
            final(self).take_from_sep ==> final(self).next is Some,
            final(self).next is None ==> final(self).iter.remaining().len() == 0,
            join_step(*old(self), r, *final(self)),
            old(self).take_from_sep ==> {
                &&& r is Some
                &&& call_ensures(old(self).sep_generator, (), r->0)
                &&& !final(self).take_from_sep
                &&& final(self).next == old(self).next
                &&& final(self).iter == old(self).iter
            },
            !old(self).take_from_sep && old(self).next is None ==> {
                &&& r is None
                &&& final(self).next == old(self).next
                &&& final(self).take_from_sep == old(self).take_from_sep
                &&& final(self).iter == old(self).iter
            },
            !old(self).take_from_sep && old(self).next is Some ==> {
                &&& r == old(self).next
                &&& pending(final(self).next, final(self).iter.remaining()) == pending(
                    old(self).next,
                    old(self).iter.remaining(),
                ).drop_first()
                &&& final(self).take_from_sep == final(self).next is Some
                &&& (final(self).iter.decrease() is Some <==> old(self).iter.decrease() is Some)
                &&& final(self).next is Some && old(self).iter.decrease() is Some ==> decreases_to!(old(self).iter.decrease()->0 => final(self).iter.decrease()->0)
            },
    {
        if self.take_from_sep {
            self.take_from_sep = false;
            Some((self.sep_generator)())
        } else {
            let result = match self.next.take() {
                Some(result) => result,
                None => {
                    return None;
                },
            };
            self.next = self.iter.next();
            self.take_from_sep = self.next.is_some();
            Some(result)
        }
    }
}

/// Interleaving an iterator's items with separators.
pub trait JoinWith<T>: Iterator<Item = T> + Sized {
    /// The items, with a value from `f` between each two of them.
    fn join_with<F: FnMut() -> T>(self, f: F) -> (r: Vec<T>)
        requires
            self.obeys_prophetic_iter_laws(),
            self.decrease() is Some,
            call_requires(f, ()),
        ensures
            is_joined(self.remaining(), r@, f),
    ;
}

impl<T, I: Iterator<Item = T>> JoinWith<T> for I {
    fn join_with<F: FnMut() -> T>(self, f: F) -> (r: Vec<T>) {
        let ghost items = self.remaining();
        let mut source = self;
        let next = source.next();
        let mut joined = JoinWithImpl { iter: source, next, take_from_sep: false, sep_generator: f };
        let mut out: Vec<T> = Vec::new();
        proof {
            assert(pending(joined.next, joined.iter.remaining()) =~= items);
        }
        loop
            invariant_except_break
                joined.iter.obeys_prophetic_iter_laws(),
                joined.iter.decrease() is Some,
                joined.sep_generator == f,
                call_requires(f, ()),
                joined.take_from_sep ==> joined.next is Some,
                joined.next is None ==> joined.iter.remaining().len() == 0,
                ({
                    let p = pending(joined.next, joined.iter.remaining());
                    let m = items.len() - p.len();
                    &&& 0 <= m <= items.len()
                    &&& joined.take_from_sep ==> m > 0
                    &&& p == items.subrange(m, items.len() as int)
                    &&& out@.len() == if m == 0 {
                        0
                    } else if !joined.take_from_sep && p.len() > 0 {
                        2 * m
                    } else {
                        2 * m - 1
                    }
                    &&& forall|k: int| 0 <= k < m ==> #[trigger] out@[2 * k] == items[k]
                    &&& forall|k: int| 0 <= 2 * k + 1 < out@.len() ==> call_ensures(f, (), #[trigger] out@[2 * k + 1])
                }),
            ensures
                is_joined(items, out@, f),
            decreases joined.iter.decrease()->0, if joined.next is Some { 1int } else { 0int }, if joined.take_from_sep { 1int } else { 0int },
        {
            let ghost p0 = pending(joined.next, joined.iter.remaining());
            let ghost m0 = items.len() - p0.len();
            let ghost out0 = out@;
            let ghost take0 = joined.take_from_sep;
            match joined.next() {
                None => {
                    proof {
                        assert(p0.len() == 0);
                        assert forall|k: int| 0 <= k < items.len() implies #[trigger] out@[2 * k] == items[k] by {}
                    }
                    break;
                },
                Some(x) => {
                    out.push(x);
                    proof {
                        if take0 {
                            assert(out@.len() == 2 * m0);
                            assert forall|k: int| 0 <= 2 * k + 1 < out@.len() implies call_ensures(f, (), #[trigger] out@[2 * k + 1]) by {
                                if 2 * k + 1 < out0.len() {
                                    assert(out@[2 * k + 1] == out0[2 * k + 1]);
                                }
                            }
                            assert forall|k: int| 0 <= k < m0 implies #[trigger] out@[2 * k] == items[k] by {
                                assert(out@[2 * k] == out0[2 * k]);
                            }
                        } else {
                            assert(x == p0[0]);
                            assert(p0[0] == items[m0]);
                            assert(out@[2 * m0] == items[m0]);
                            assert forall|k: int| 0 <= k < m0 + 1 implies #[trigger] out@[2 * k] == items[k] by {
                                if k < m0 {
                                    assert(out@[2 * k] == out0[2 * k]);
                                }
                            }
                            assert forall|k: int| 0 <= 2 * k + 1 < out@.len() implies call_ensures(f, (), #[trigger] out@[2 * k + 1]) by {
                                assert(out@[2 * k + 1] == out0[2 * k + 1]);
                            }
                            assert(p0.drop_first() =~= items.subrange(m0 + 1, items.len() as int));
                        }
                    }
                },
            }
            if joined.next.is_none() && !joined.take_from_sep {
                proof {
                    assert forall|k: int| 0 <= k < items.len() implies #[trigger] out@[2 * k] == items[k] by {}
                }
                break;
            }
        }
        out
    }
}

/// A joined sequence whose separators all look alike is, seen through
/// `view`, the items interleaved with that separator.
pub proof fn lemma_joined_is_interleave<T, F: FnMut() -> T, V>(
    items: Seq<T>,
    out: Seq<T>,
    f: F,
    view: spec_fn(T) -> V,
    sep: V,
)
    requires
        is_joined(items, out, f),
        forall|x: T| #[trigger] call_ensures(f, (), x) ==> view(x) == sep,
    ensures
        out.map_values(view) == crate::tokens::interleave(items.map_values(view), sep),
{
    let expected = crate::tokens::interleave(items.map_values(view), sep);
    assert forall|i: int| 0 <= i < out.len() implies out.map_values(view)[i] == expected[i] by {
        if i % 2 == 0 {
            let k = i / 2;
            assert(out[2 * k] == items[k]);
        } else {
            let k = i / 2;
            assert(2 * k + 1 == i);
            assert(call_ensures(f, (), out[2 * k + 1]));
        }
    }
    assert(out.map_values(view) =~= expected);
}

} // verus!
