//! Generic parameter lists without their bounds.
use crate::derive_input::{GenericParamModel, GenericsModel};
use crate::iter::{lemma_joined_is_interleave, JoinWith};
use crate::proc_macro_util::collect_tokens::{
    lemma_flatten_append, lemma_flatten_single, stream_views, CollectTokens,
};
use crate::tokens::{flatten, interleave, p, punct, toks, Token, TokenView};
use vstd::prelude::*;

verus! {

/// What a parameter is referred to by: a lifetime parameter as written, a
/// type or constant parameter by its name.
pub open spec fn param_toks(g: GenericParamModel) -> Seq<TokenView> {
    match g {
        GenericParamModel::Lifetime(k) => seq![TokenView::Splice(k)],
        GenericParamModel::Type(i) => seq![i.tok()],
        GenericParamModel::Const(i) => seq![i.tok()],
    }
}

/// The parameters as they are referred to, separated by commas.
pub open spec fn params_list(ps: Seq<GenericParamModel>) -> Seq<TokenView> {
    flatten(interleave(ps.map_values(|g: GenericParamModel| param_toks(g)), seq![p(',')]))
}

/// The parameters without their bounds, in angle brackets; nothing where
/// there are no parameters.
pub open spec fn stripped_generics(g: GenericsModel) -> Seq<TokenView> {
    if g.params@.len() == 0 {
        Seq::<TokenView>::empty()
    } else {
        seq![p('<')] + params_list(g.params@) + seq![p('>')]
    }
}

/// Streams of one token each, concatenated, are those tokens in order.
proof fn lemma_flatten_singletons(ss: Seq<Seq<TokenView>>)
    requires
        forall|i: int| 0 <= i < ss.len() ==> (#[trigger] ss[i]).len() == 1,
    ensures
        flatten(ss) =~= Seq::new(ss.len(), |i: int| ss[i][0]),
    decreases ss.len(),
{
    if ss.len() > 0 {
        let rest = ss.drop_first();
        assert forall|i: int| 0 <= i < rest.len() implies (#[trigger] rest[i]).len() == 1 by {
            assert(rest[i] == ss[i + 1]);
        }
        lemma_flatten_singletons(rest);
        assert(ss[0].len() == 1);
    }
}

/// A generics list without its bounds: nothing exactly when there are no
/// parameters; otherwise `<`, then each parameter by what it is referred to
/// by (a lifetime as written, a type or constant by its name), with a comma
/// between each two, then `>`.
pub proof fn lemma_stripped_generics_tokens(g: GenericsModel)
    ensures
        stripped_generics(g).len() == 0 <==> g.params@.len() == 0,
        g.params@.len() > 0 ==> {
            let n = g.params@.len() as int;
            let s = stripped_generics(g);
            &&& s.len() == 2 * n + 1
            &&& s[0] == p('<')
            &&& s[2 * n] == p('>')
            &&& forall|j: int|
                0 <= j < n ==> #[trigger] s[2 * j + 1] == match g.params@[j] {
                    GenericParamModel::Lifetime(k) => TokenView::Splice(k),
                    GenericParamModel::Type(i) => i.tok(),
                    GenericParamModel::Const(i) => i.tok(),
                }
            &&& forall|j: int| 0 <= j < n - 1 ==> #[trigger] s[2 * j + 2] == p(',')
        },
{
    let ps = g.params@;
    if ps.len() > 0 {
        let n = ps.len() as int;
        let pieces = interleave(ps.map_values(|q: GenericParamModel| param_toks(q)), seq![p(',')]);
        assert(pieces.len() == 2 * n - 1);
        assert forall|i: int| 0 <= i < pieces.len() implies (#[trigger] pieces[i]).len() == 1 by {
            if i % 2 == 0 {
                assert(pieces[i] == param_toks(ps[i / 2]));
            }
        }
        lemma_flatten_singletons(pieces);
        let list = params_list(ps);
        assert(list.len() == 2 * n - 1);
        let s = stripped_generics(g);
        assert(s == seq![p('<')] + list + seq![p('>')]);
        assert forall|j: int| 0 <= j < n implies #[trigger] s[2 * j + 1] == match ps[j] {
            GenericParamModel::Lifetime(k) => TokenView::Splice(k),
            GenericParamModel::Type(i) => i.tok(),
            GenericParamModel::Const(i) => i.tok(),
        } by {
            assert(s[2 * j + 1] == list[2 * j]);
            assert((2 * j) % 2 == 0 && (2 * j) / 2 == j);
            assert(pieces[2 * j] == param_toks(ps[j]));
        }
        assert forall|j: int| 0 <= j < n - 1 implies #[trigger] s[2 * j + 2] == p(',') by {
            assert(s[2 * j + 2] == list[2 * j + 1]);
            assert((2 * j + 1) % 2 == 1);
            assert(pieces[2 * j + 1] == seq![p(',')]);
        }
    }
}

pub fn param_tokens(param: &GenericParamModel) -> (r: Vec<Token>)
    ensures
        toks(r@) == param_toks(*param),
{
    let mut out: Vec<Token> = Vec::new();
    match param {
        GenericParamModel::Lifetime(k) => out.push(Token::Splice(*k)),
        GenericParamModel::Type(i) => out.push(i.to_token()),
        GenericParamModel::Const(i) => out.push(i.to_token()),
    }
    proof {
        assert(toks(out@) =~= param_toks(*param));
    }
    out
}

/// A comma.
pub fn comma() -> (r: Vec<Token>)
    ensures
        toks(r@) == seq![p(',')],
{
    let mut out: Vec<Token> = Vec::new();
    out.push(punct(','));
    proof {
        assert(toks(out@) =~= seq![p(',')]);
    }
    out
}

/// The references to `params`, separated by commas.
pub fn params_joined(params: &Vec<GenericParamModel>) -> (r: Vec<Vec<Token>>)
    ensures
        stream_views(r@) == interleave(params@.map_values(|g: GenericParamModel| param_toks(g)), seq![p(',')]),
{
    let mut pieces: Vec<Vec<Token>> = Vec::new();
    let mut k: usize = 0;
    while k < params.len()
        invariant
            k <= params@.len(),
            pieces@.len() == k,
            forall|j: int| 0 <= j < k ==> toks(#[trigger] pieces@[j]@) == param_toks(params@[j]),
        decreases params@.len() - k,
    {
        pieces.push(param_tokens(&params[k]));
        k = k + 1;
    }
    let ghost items = pieces@;
    let separator = || -> (r: Vec<Token>)
        ensures
            toks(r@) == seq![p(',')],
        { comma() };
    let joined = pieces.into_iter().join_with(separator);
    proof {
        let view = |v: Vec<Token>| toks(v@);
        lemma_joined_is_interleave(items, joined@, separator, view, seq![p(',')]);
        assert(items.map_values(view) =~= params@.map_values(|g: GenericParamModel| param_toks(g)));
        assert(stream_views(joined@) =~= joined@.map_values(view));
    }
    joined
}

pub trait StripTraitBounds {
    fn strip_trait_bounds(&self) -> Vec<Token>;
}

impl StripTraitBounds for GenericsModel {
    /// `<` and the parameters, without bounds, separated by commas, then
    /// `>`; nothing where there are no parameters.
    fn strip_trait_bounds(&self) -> (r: Vec<Token>)
        ensures
            toks(r@) == stripped_generics(*self),
            r@.len() == 0 <==> self.params@.len() == 0,
            self.params@.len() > 0 ==> toks(r@) == seq![p('<')] + params_list(self.params@) + seq![p('>')],
    {
        proof {
            lemma_stripped_generics_tokens(*self);
        }
        if self.params.len() == 0 {
            let empty: Vec<Token> = Vec::new();
            proof {
                assert(toks(empty@) =~= Seq::<TokenView>::empty());
            }
            return empty;
        }
        let mut open: Vec<Token> = Vec::new();
        open.push(punct('<'));
        let mut close: Vec<Token> = Vec::new();
        close.push(punct('>'));
        let mut joined = params_joined(&self.params);
        let mut parts: Vec<Vec<Token>> = Vec::new();
        parts.push(open);
        let ghost middle = joined@;
        parts.append(&mut joined);
        parts.push(close);
        let ghost all = parts@;
        proof {
            assert(toks(all[0]@) =~= seq![p('<')]);
            assert(toks(all[all.len() - 1]@) =~= seq![p('>')]);
            assert(stream_views(all) =~= seq![seq![p('<')]] + stream_views(middle) + seq![seq![p('>')]]);
            lemma_flatten_append(seq![seq![p('<')]], stream_views(middle));
            lemma_flatten_append(seq![seq![p('<')]] + stream_views(middle), seq![seq![p('>')]]);
            lemma_flatten_single(seq![p('<')]);
            lemma_flatten_single(seq![p('>')]);
        }
        parts.into_iter().collect_tokens()
    }
}

} // verus!
