//! Deriving `From` for each single-field variant of an enum.
pub mod error;

use crate::derive_input::{DataModel, DeriveInputModel, FieldsModel, GenericsModel, VariantModel};
use crate::from_variants::error::FromVariantsInternalError;
use crate::proc_macro_util::collect_tokens::{
    lemma_try_flatten_map_err, map_err, res_toks, res_views, try_flatten, CollectTokens,
    TryCollectTokens,
};
use crate::proc_macro_util::generics::{params_joined, params_list};
use crate::tokens::{
    colon2, grouped, id, p, pj, push_all, push_close, push_colon2, push_ident, push_open,
    push_punct, push_rarrow, push_splice, push_tok, toks, Delimiter, IdentModel, SpanRef, Token,
    TokenView,
};
use vstd::prelude::*;
use vstd::string::StringExecFns;

verus! {

/// What an error says and where.
pub type ErrView = (Seq<char>, SpanRef);

pub open spec fn fv_err_view(e: FromVariantsInternalError) -> ErrView {
    e.view()
}

pub open spec fn variant_shape_message() -> Seq<char> {
    "FromVariants requires all enum variants to either have a single unnamed data member, or be empty"@
}

/// `impl<generics> From<ty> for Enum<args> { fn from(value: ty) -> Self { Self::Variant(value) } }`
pub open spec fn from_impl_toks(
    variant: IdentModel,
    ty_fragment: usize,
    enum_ident: IdentModel,
    generics: GenericsModel,
) -> Seq<TokenView> {
    seq![id("impl"@), TokenView::Splice(generics.fragment), id("From"@), p('<'), TokenView::Splice(ty_fragment), p('>'), id("for"@), enum_ident.tok(), p('<')]
        + params_list(generics.params@) + seq![p('>')] + grouped(
        Delimiter::Brace,
        seq![id("fn"@), id("from"@)] + grouped(
            Delimiter::Parenthesis,
            seq![id("value"@), p(':'), TokenView::Splice(ty_fragment)],
        ) + seq![pj('-'), p('>'), id("Self"@)] + grouped(
            Delimiter::Brace,
            seq![id("Self"@)] + colon2() + seq![variant.tok()] + grouped(
                Delimiter::Parenthesis,
                seq![id("value"@)],
            ),
        ),
    )
}

/// The `From` impl for one variant: nothing for a unit variant, an error
/// for named fields or for other than exactly one unnamed field.
pub open spec fn impl_from_variant_spec(v: VariantModel, enum_ident: IdentModel, generics: GenericsModel) -> Result<Seq<TokenView>, ErrView> {
    match v.fields {
        FieldsModel::Unit => Ok(Seq::empty()),
        FieldsModel::Named { span } => Err((variant_shape_message(), span)),
        FieldsModel::Unnamed { fields, span } => if fields@.len() != 1 {
            Err((variant_shape_message(), span))
        } else {
            Ok(from_impl_toks(v.ident, fields@[0].ty.fragment, enum_ident, generics))
        },
    }
}

/// The `From` impls for all variants, or the first error; an error for
/// anything but an enum.
pub open spec fn from_variants_spec(input: DeriveInputModel) -> Result<Seq<TokenView>, ErrView> {
    match input.data {
        DataModel::Enum(vs) => try_flatten(
            vs@.map_values(|v: VariantModel| impl_from_variant_spec(v, input.ident, input.generics)),
        ),
        _ => Err(("Can only derive `FromVariants` on enums"@, input.ident.span)),
    }
}

/// The generic parameters as arguments: names only, separated by commas.
pub fn generic_args(generics: &GenericsModel) -> (r: Vec<Token>)
    ensures
        toks(r@) == params_list(generics.params@),
{
    params_joined(&generics.params).into_iter().collect_tokens()
}

pub fn impl_from_variant(
    variant: &VariantModel,
    enum_ident: &IdentModel,
    generics: &GenericsModel,
) -> (r: Result<Vec<Token>, FromVariantsInternalError>)
    ensures
        map_err(res_toks(r), |e: FromVariantsInternalError| fv_err_view(e)) == impl_from_variant_spec(*variant, *enum_ident, *generics),
{
    let generic_args = generic_args(generics);
    let fields = match &variant.fields {
        FieldsModel::Unnamed { fields, span } => {
            if fields.len() != 1 {
                return Err(FromVariantsInternalError::new(
                    String::from_str("FromVariants requires all enum variants to either have a single unnamed data member, or be empty"),
                    *span,
                ));
            }
            fields
        },
        FieldsModel::Unit => {
            let empty: Vec<Token> = Vec::new();
            proof {
                assert(toks(empty@) =~= Seq::<TokenView>::empty());
            }
            return Ok(empty);
        },
        FieldsModel::Named { span } => {
            return Err(FromVariantsInternalError::new(
                String::from_str("FromVariants requires all enum variants to either have a single unnamed data member, or be empty"),
                *span,
            ));
        },
    };
    let ty = &fields[0].ty;
    let mut out: Vec<Token> = Vec::new();
    push_ident(&mut out, "impl");
    push_splice(&mut out, generics.fragment);
    push_ident(&mut out, "From");
    push_punct(&mut out, '<');
    push_splice(&mut out, ty.fragment);
    push_punct(&mut out, '>');
    push_ident(&mut out, "for");
    push_tok(&mut out, enum_ident.to_token());
    push_punct(&mut out, '<');
    push_all(&mut out, generic_args);
    push_punct(&mut out, '>');
    push_open(&mut out, Delimiter::Brace);
    push_ident(&mut out, "fn");
    push_ident(&mut out, "from");
    push_open(&mut out, Delimiter::Parenthesis);
    push_ident(&mut out, "value");
    push_punct(&mut out, ':');
    push_splice(&mut out, ty.fragment);
    push_close(&mut out, Delimiter::Parenthesis);
    push_rarrow(&mut out);
    push_ident(&mut out, "Self");
    push_open(&mut out, Delimiter::Brace);
    push_ident(&mut out, "Self");
    push_colon2(&mut out);
    push_tok(&mut out, variant.ident.to_token());
    push_open(&mut out, Delimiter::Parenthesis);
    push_ident(&mut out, "value");
    push_close(&mut out, Delimiter::Parenthesis);
    push_close(&mut out, Delimiter::Brace);
    push_close(&mut out, Delimiter::Brace);
    proof {
        assert(toks(out@) =~= from_impl_toks(variant.ident, ty.fragment, *enum_ident, *generics));
    }
    Ok(out)
}

pub fn build_from_variants_impl(input: DeriveInputModel) -> (r: Result<Vec<Token>, FromVariantsInternalError>)
    ensures
        map_err(res_toks(r), |e: FromVariantsInternalError| fv_err_view(e)) == from_variants_spec(input),
{
    let variants = match &input.data {
        DataModel::Enum(variants) => variants,
        _ => {
            return Err(FromVariantsInternalError::new(
                String::from_str("Can only derive `FromVariants` on enums"),
                input.ident.span,
            ));
        },
    };
    let mut impls: Vec<Result<Vec<Token>, FromVariantsInternalError>> = Vec::new();
    let mut k: usize = 0;
    while k < variants.len()
        invariant
            k <= variants@.len(),
            impls@.len() == k,
            forall|j: int| 0 <= j < k ==> map_err(res_toks(#[trigger] impls@[j]), |e: FromVariantsInternalError| fv_err_view(e))
                == impl_from_variant_spec(variants@[j], input.ident, input.generics),
        decreases variants@.len() - k,
    {
        impls.push(impl_from_variant(&variants[k], &input.ident, &input.generics));
        k = k + 1;
    }
    let ghost items = impls@;
    let variant_impls = impls.into_iter().try_collect_tokens();
    proof {
        let f = |e: FromVariantsInternalError| fv_err_view(e);
        lemma_try_flatten_map_err(res_views(items), f);
        assert(res_views(items).map_values(|r: Result<Seq<TokenView>, FromVariantsInternalError>| map_err(r, f))
            =~= variants@.map_values(|v: VariantModel| impl_from_variant_spec(v, input.ident, input.generics)));
    }
    variant_impls
}

} // verus!
