//! Concatenating token streams.
use crate::tokens::{flatten, push_all, toks, Token, TokenView};
use vstd::prelude::*;
use vstd::std_specs::iter::IteratorSpec;

verus! {

/// The views of a sequence of streams.
pub open spec fn stream_views(s: Seq<Vec<Token>>) -> Seq<Seq<TokenView>> {
    s.map_values(|v: Vec<Token>| toks(v@))
}

/// A result carrying a stream, with the stream as its view.
pub open spec fn res_toks<E>(r: Result<Vec<Token>, E>) -> Result<Seq<TokenView>, E> {
    match r {
        Ok(v) => Ok(toks(v@)),
        Err(e) => Err(e),
    }
}

/// The views of a sequence of results.
pub open spec fn res_views<E>(s: Seq<Result<Vec<Token>, E>>) -> Seq<Result<Seq<TokenView>, E>> {
    s.map_values(|r: Result<Vec<Token>, E>| res_toks(r))
}

/// The concatenation of the `Ok` streams, or the first error.
pub open spec fn try_flatten<E>(s: Seq<Result<Seq<TokenView>, E>>) -> Result<Seq<TokenView>, E>
    decreases s.len(),
{
    if s.len() == 0 {
        Ok(Seq::empty())
    } else {
        match s[0] {
            Err(e) => Err(e),
            Ok(v) => match try_flatten(s.drop_first()) {
                Ok(rest) => Ok(v + rest),
                Err(e) => Err(e),
            },
        }
    }
}

proof fn lemma_flatten_push(done: Seq<Seq<TokenView>>, last: Seq<TokenView>)
    ensures
        flatten(done.push(last)) == flatten(done) + last,
    decreases done.len(),
{
    if done.len() == 0 {
        assert(done.push(last).drop_first() =~= Seq::<Seq<TokenView>>::empty());
        assert(flatten(Seq::<Seq<TokenView>>::empty()) == Seq::<TokenView>::empty());
        assert(last + Seq::<TokenView>::empty() =~= last);
        assert(flatten(done.push(last)) =~= last);
    } else {
        assert(done.push(last).drop_first() =~= done.drop_first().push(last));
        lemma_flatten_push(done.drop_first(), last);
        assert(flatten(done.push(last)) =~= flatten(done) + last);
    }
}

/// Flattening one stream gives that stream.
pub proof fn lemma_flatten_single(s: Seq<TokenView>)
    ensures
        flatten(seq![s]) == s,
{
    assert(seq![s].drop_first() =~= Seq::<Seq<TokenView>>::empty());
    assert(flatten(Seq::<Seq<TokenView>>::empty()) == Seq::<TokenView>::empty());
    assert(seq![s][0] == s);
    assert(s + Seq::<TokenView>::empty() =~= s);
}

/// The error of a result, seen through `f`.
pub open spec fn map_err<E, F>(r: Result<Seq<TokenView>, E>, f: spec_fn(E) -> F) -> Result<Seq<TokenView>, F> {
    match r {
        Ok(v) => Ok(v),
        Err(e) => Err(f(e)),
    }
}

/// Seeing errors through `f` before or after flattening is the same.
pub proof fn lemma_try_flatten_map_err<E, F>(s: Seq<Result<Seq<TokenView>, E>>, f: spec_fn(E) -> F)
    ensures
        try_flatten(s.map_values(|r: Result<Seq<TokenView>, E>| map_err(r, f))) == map_err(try_flatten(s), f),
    decreases s.len(),
{
    let m = s.map_values(|r: Result<Seq<TokenView>, E>| map_err(r, f));
    if s.len() > 0 {
        assert(m.drop_first() =~= s.drop_first().map_values(|r: Result<Seq<TokenView>, E>| map_err(r, f)));
        lemma_try_flatten_map_err(s.drop_first(), f);
    }
}

/// Where every result is `Ok`, flattening concatenates their streams.
pub proof fn lemma_try_flatten_all_ok<E>(s: Seq<Result<Seq<TokenView>, E>>)
    requires
        forall|k: int| 0 <= k < s.len() ==> #[trigger] s[k] is Ok,
    ensures
        try_flatten(s) == Ok::<Seq<TokenView>, E>(flatten(s.map_values(|r: Result<Seq<TokenView>, E>| r->Ok_0))),
    decreases s.len(),
{
    let m = s.map_values(|r: Result<Seq<TokenView>, E>| r->Ok_0);
    if s.len() > 0 {
        assert(m.drop_first() =~= s.drop_first().map_values(|r: Result<Seq<TokenView>, E>| r->Ok_0));
        assert forall|k: int| 0 <= k < s.drop_first().len() implies #[trigger] s.drop_first()[k] is Ok by {
            assert(s[k + 1] is Ok);
        }
        lemma_try_flatten_all_ok(s.drop_first());
    } else {
        assert(m =~= Seq::<Seq<TokenView>>::empty());
    }
}

/// Where flattening succeeds, every result is `Ok`.
pub proof fn lemma_try_flatten_ok_each<E>(s: Seq<Result<Seq<TokenView>, E>>)
    requires
        try_flatten(s) is Ok,
    ensures
        forall|k: int| 0 <= k < s.len() ==> #[trigger] s[k] is Ok,
    decreases s.len(),
{
    if s.len() > 0 {
        lemma_try_flatten_ok_each(s.drop_first());
        assert forall|k: int| 0 <= k < s.len() implies #[trigger] s[k] is Ok by {
            if k > 0 {
                assert(s.drop_first()[k - 1] is Ok);
            }
        }
    }
}

/// Flattening distributes over concatenation.
pub proof fn lemma_flatten_append(a: Seq<Seq<TokenView>>, b: Seq<Seq<TokenView>>)
    ensures
        flatten(a + b) == flatten(a) + flatten(b),
    decreases a.len(),
{
    if a.len() == 0 {
        assert(a + b =~= b);
        assert(Seq::<TokenView>::empty() + flatten(b) =~= flatten(b));
    } else {
        assert((a + b).drop_first() =~= a.drop_first() + b);
        lemma_flatten_append(a.drop_first(), b);
        assert(a[0] + (flatten(a.drop_first()) + flatten(b)) =~= (a[0] + flatten(a.drop_first())) + flatten(b));
    }
}

pub trait CollectTokens: Iterator<Item = Vec<Token>> + Sized {
    /// All the streams, one after the other.
    fn collect_tokens(self) -> (r: Vec<Token>)
        requires
            self.obeys_prophetic_iter_laws(),
            self.decrease() is Some,
        ensures
            toks(r@) == flatten(stream_views(self.remaining())),
    ;
}

impl<T: Iterator<Item = Vec<Token>>> CollectTokens for T {
    fn collect_tokens(self) -> (r: Vec<Token>) {
        let ghost items = self.remaining();
        let mut iter = self;
        let mut tokens: Vec<Token> = Vec::new();
        let ghost mut taken: int = 0;
        loop
            invariant
                iter.obeys_prophetic_iter_laws(),
                iter.decrease() is Some,
                0 <= taken <= items.len(),
                items == self.remaining(),
                iter.remaining() == items.subrange(taken, items.len() as int),
                toks(tokens@) == flatten(stream_views(items.subrange(0, taken))),
            decreases iter.decrease()->0,
        {
            match iter.next() {
                None => {
                    proof {
                        assert(items.subrange(0, taken) =~= items);
                    }
                    return tokens;
                },
                Some(item) => {
                    proof {
                        lemma_flatten_push(stream_views(items.subrange(0, taken)), toks(item@));
                        assert(stream_views(items.subrange(0, taken + 1)) =~= stream_views(
                            items.subrange(0, taken),
                        ).push(toks(item@)));
                        assert(items.subrange(taken + 1, items.len() as int) =~= items.subrange(taken, items.len() as int).drop_first());
                        taken = taken + 1;
                    }
                    push_all(&mut tokens, item);
                },
            }
        }
    }
}

pub trait TryCollectTokens<E>: Iterator<Item = Result<Vec<Token>, E>> + Sized {
    /// All the streams, one after the other, or the first error.
    fn try_collect_tokens(self) -> (r: Result<Vec<Token>, E>)
        requires
            self.obeys_prophetic_iter_laws(),
            self.decrease() is Some,
        ensures
            res_toks(r) == try_flatten(res_views(self.remaining())),
    ;
}

impl<E, T: Iterator<Item = Result<Vec<Token>, E>>> TryCollectTokens<E> for T {
    fn try_collect_tokens(self) -> (r: Result<Vec<Token>, E>) {
        let ghost items = self.remaining();
        let mut iter = self;
        let mut tokens: Vec<Token> = Vec::new();
        loop
            invariant
                iter.obeys_prophetic_iter_laws(),
                iter.decrease() is Some,
                items == self.remaining(),
                try_flatten(res_views(items)) == match try_flatten(res_views(iter.remaining())) {
                    Ok(rest) => Ok(toks(tokens@) + rest),
                    Err(e) => Err(e),
                },
            decreases iter.decrease()->0,
        {
            let ghost before = toks(tokens@);
            let ghost rem = iter.remaining();
            match iter.next() {
                None => {
                    proof {
                        assert(res_views(rem) =~= Seq::empty());
                        assert(toks(tokens@) + Seq::<TokenView>::empty() =~= toks(tokens@));
                    }
                    return Ok(tokens);
                },
                Some(Ok(item)) => {
                    let ghost added = toks(item@);
                    proof {
                        assert(res_views(rem).drop_first() =~= res_views(rem.drop_first()));
                    }
                    push_all(&mut tokens, item);
                    proof {
                        assert forall|rest: Seq<TokenView>| #[trigger] (before + (added + rest)) == toks(tokens@) + rest by {
                            assert(before + (added + rest) =~= toks(tokens@) + rest);
                        }
                    }
                },
                Some(Err(e)) => {
                    return Err(e);
                },
            }
        }
    }
}

} // verus!
