//! Generating accessors for the variants of an enum. Only the checks on
//! the enum's shape are implemented so far; no accessor is generated yet.
pub mod error;

use crate::derive_input::{DataModel, DeriveInputModel, FieldModel, FieldsModel, VariantModel};
use crate::enum_extract::error::EnumExtractorError;
use crate::proc_macro_util::collect_tokens::{
    lemma_try_flatten_map_err, map_err, res_toks, res_views, try_flatten, TryCollectTokens,
};
use crate::tokens::{
    grouped, id, p, push_all, push_close, push_ident, push_open, push_punct, toks, Delimiter,
    SpanRef, Token, TokenView,
};
use vstd::prelude::*;
use vstd::string::StringExecFns;

verus! {

/// What an error says and where.
pub type ErrView = (Seq<char>, SpanRef);

pub open spec fn err_view(e: EnumExtractorError) -> ErrView {
    e@
}

/// A generated stream or error, as values.
pub open spec fn out_view(r: Result<Vec<Token>, EnumExtractorError>) -> Result<Seq<TokenView>, ErrView> {
    map_err(res_toks(r), |e: EnumExtractorError| err_view(e))
}

/// The accessors of one variant: none so far; named fields are refused.
pub open spec fn variant_accessor_spec(v: VariantModel) -> Result<Seq<TokenView>, ErrView> {
    match v.fields {
        FieldsModel::Named { .. } => Err(("Can't use named fields with EnumExtract"@, v.span)),
        _ => Ok(Seq::empty()),
    }
}

/// Every variant that is looked at before the first refused one has, if its
/// fields are unnamed, exactly one.
pub open spec fn variants_supported(vs: Seq<VariantModel>) -> bool {
    forall|k: int|
        0 <= k < vs.len() && (forall|j: int| 0 <= j < k ==> !(#[trigger] vs[j].fields is Named))
            ==> match #[trigger] vs[k].fields {
            FieldsModel::Unnamed { fields, .. } => fields@.len() == 1,
            _ => true,
        }
}

/// `impl $enum_name { ... }` around the accessors, or the first problem.
pub open spec fn extractor_spec(input: DeriveInputModel) -> Result<Seq<TokenView>, ErrView> {
    match input.data {
        DataModel::Enum(vs) => match try_flatten(vs@.map_values(|v: VariantModel| variant_accessor_spec(v))) {
            Ok(variants) => Ok(
                seq![id("impl"@), p('$'), id("enum_name"@)] + grouped(Delimiter::Brace, variants),
            ),
            Err(e) => Err(e),
        },
        _ => Err(("\"EnumExtract\" may only be used on enums"@, input.ident.span)),
    }
}

/// The accessor of a variant with one unnamed field.
pub fn generate_accessor(fields: &Vec<FieldModel>) -> (r: Result<Vec<Token>, EnumExtractorError>)
    requires
        fields@.len() == 1,
    ensures
        out_view(r) == Ok::<Seq<TokenView>, ErrView>(Seq::empty()),
{
    let _field = &fields[0];
    let empty: Vec<Token> = Vec::new();
    proof {
        assert(toks(empty@) =~= Seq::<TokenView>::empty());
    }
    Ok(empty)
}

fn variant_accessor(variant: &VariantModel) -> (r: Result<Vec<Token>, EnumExtractorError>)
    requires
        variant.fields matches FieldsModel::Unnamed { fields, .. } ==> fields@.len() == 1,
    ensures
        out_view(r) == variant_accessor_spec(*variant),
{
    match &variant.fields {
        FieldsModel::Unit => {
            let empty: Vec<Token> = Vec::new();
            proof {
                assert(toks(empty@) =~= Seq::<TokenView>::empty());
            }
            Ok(empty)
        },
        FieldsModel::Unnamed { fields, .. } => generate_accessor(fields),
        FieldsModel::Named { .. } => Err(EnumExtractorError::new(
            String::from_str("Can't use named fields with EnumExtract"),
            variant.span,
        )),
    }
}

/// The accessors of all variants, or the first problem. Variants after the
/// first refused one are not looked at.
pub fn generate_variant_accessors(variants: &Vec<VariantModel>) -> (r: Result<Vec<Token>, EnumExtractorError>)
    requires
        variants_supported(variants@),
    ensures
        out_view(r) == try_flatten(variants@.map_values(|v: VariantModel| variant_accessor_spec(v))),
{
    let ghost specs = variants@.map_values(|v: VariantModel| variant_accessor_spec(v));
    let mut accessors: Vec<Result<Vec<Token>, EnumExtractorError>> = Vec::new();
    let mut k: usize = 0;
    let mut refused = false;
    while k < variants.len() && !refused
        invariant
            k <= variants@.len(),
            accessors@.len() == k,
            variants_supported(variants@),
            specs == variants@.map_values(|v: VariantModel| variant_accessor_spec(v)),
            forall|j: int| 0 <= j < k ==> out_view(#[trigger] accessors@[j]) == specs[j],
            refused ==> k > 0 && specs[k - 1] is Err,
            !refused ==> forall|j: int| 0 <= j < k ==> !(#[trigger] variants@[j].fields is Named),
        decreases variants@.len() - k,
    {
        let accessor = variant_accessor(&variants[k]);
        if accessor.is_err() {
            refused = true;
        }
        accessors.push(accessor);
        k = k + 1;
    }
    let ghost items = accessors@;
    let r = accessors.into_iter().try_collect_tokens();
    proof {
        let f = |e: EnumExtractorError| err_view(e);
        lemma_try_flatten_map_err(res_views(items), f);
        let seen = res_views(items).map_values(|x: Result<Seq<TokenView>, EnumExtractorError>| map_err(x, f));
        assert(seen =~= specs.subrange(0, k as int));
        lemma_try_flatten_prefix(specs, k as int);
    }
    r
}

/// Flattening a prefix that ends in an error, or that is the whole sequence,
/// gives what flattening the whole sequence gives.
proof fn lemma_try_flatten_prefix<E>(s: Seq<Result<Seq<TokenView>, E>>, k: int)
    requires
        0 < k <= s.len() || k == s.len(),
        k < s.len() ==> s[k - 1] is Err,
    ensures
        try_flatten(s.subrange(0, k)) == try_flatten(s),
    decreases k,
{
    if k == s.len() {
        assert(s.subrange(0, k) =~= s);
    } else if k == 1 {
        assert(s.subrange(0, 1)[0] == s[0]);
    } else {
        assert(s.subrange(0, k).drop_first() =~= s.drop_first().subrange(0, k - 1));
        if s[0] is Ok {
            lemma_try_flatten_prefix(s.drop_first(), k - 1);
        }
    }
}

pub fn build_extractor(ast: DeriveInputModel) -> (r: Result<Vec<Token>, EnumExtractorError>)
    requires
        ast.data matches DataModel::Enum(vs) ==> variants_supported(vs@),
    ensures
        out_view(r) == extractor_spec(ast),
{
    let data = match &ast.data {
        DataModel::Enum(data) => data,
        _ => {
            return Err(EnumExtractorError::new(
                String::from_str("\"EnumExtract\" may only be used on enums"),
                ast.ident.span,
            ));
        },
    };
    let variants = match generate_variant_accessors(data) {
        Ok(variants) => variants,
        Err(e) => {
            return Err(e);
        },
    };
    let mut out: Vec<Token> = Vec::new();
    push_ident(&mut out, "impl");
    push_punct(&mut out, '$');
    push_ident(&mut out, "enum_name");
    push_open(&mut out, Delimiter::Brace);
    push_all(&mut out, variants);
    push_close(&mut out, Delimiter::Brace);
    proof {
        assert(toks(out@) =~= extractor_spec(ast)->Ok_0);
    }
    Ok(out)
}

} // verus!
