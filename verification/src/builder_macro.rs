//! Generating a builder for a struct: a companion struct whose fields can be
//! set one at a time, and a `build` that checks that every required field
//! was set.
//!
//! A field marked `#[optional]` (of type `Option<T>`) or `#[vec]` (of type
//! `Vec<T>`) may be left unset; any other field is required.
pub mod error;

use crate::builder_macro::error::BuilderInternalError;
use crate::derive_input::{
    AttributeModel, DataModel, DeriveInputModel, FieldModel, GenericArgModel, GenericsModel,
    PathArgumentsModel, TypeModel, TypeShape,
};
use crate::iter::{lemma_joined_is_interleave, JoinWith};
use crate::proc_macro_util::collect_tokens::{
    lemma_try_flatten_all_ok, lemma_try_flatten_map_err, lemma_try_flatten_ok_each, map_err, res_toks, res_views, try_flatten,
    TryCollectTokens,
};
use crate::proc_macro_util::generics::{comma, stripped_generics, StripTraitBounds};
use crate::tokens::{
    colon2, flatten, grouped, id, interleave, p, pj, push_all, push_close, push_colon2,
    push_ident, push_open, push_punct, push_rarrow, push_splice, push_tok, toks, Delimiter,
    IdentModel, Spacing, SpanRef, Token, TokenView,
};
use vstd::prelude::*;
use vstd::string::StringExecFns;

verus! {

/// What an error says and where.
pub type ErrView = (Seq<char>, SpanRef);

pub open spec fn err_view(e: BuilderInternalError) -> ErrView {
    e@
}

/// How a field is built.
#[derive(Clone, Copy, PartialEq, Eq, Structural)]
pub enum FieldCategory {
    /// Required: set once, checked by `build`.
    Default,
    /// `#[optional]`: an `Option` that may stay `None`.
    Optional,
    /// `#[vec]`: a `Vec` that items are pushed onto.
    Vec,
}

pub open spec fn attribute_category_spec(a: AttributeModel) -> Option<FieldCategory> {
    match a.path_ident {
        Some(n) => if n@ == "optional"@ {
            Some(FieldCategory::Optional)
        } else if n@ == "vec"@ {
            Some(FieldCategory::Vec)
        } else {
            None
        },
        None => None,
    }
}

/// The category of the first attribute that names one.
pub open spec fn first_category(attrs: Seq<AttributeModel>) -> Option<FieldCategory>
    decreases attrs.len(),
{
    if attrs.len() == 0 {
        None
    } else {
        match attribute_category_spec(attrs[0]) {
            Some(c) => Some(c),
            None => first_category(attrs.drop_first()),
        }
    }
}

pub open spec fn field_category_spec(f: FieldModel) -> FieldCategory {
    match first_category(f.attrs@) {
        Some(c) => c,
        None => FieldCategory::Default,
    }
}

pub open spec fn msg_expected_type(expected: Seq<char>) -> Seq<char> {
    "Expected field to have type `"@ + expected + "<...>`"@
}

pub open spec fn msg_explicit_arguments(expected: Seq<char>) -> Seq<char> {
    "`optional` tag requires explicit generic arguments to `"@ + expected + "`"@
}

pub open spec fn msg_empty_arguments(expected: Seq<char>) -> Seq<char> {
    "Unexpected empty generic arguments to `"@ + expected + "`"@
}

pub open spec fn msg_argument_not_type(expected: Seq<char>) -> Seq<char> {
    "Expected inner generic argument of `"@ + expected + "` to be a type"@
}

/// The single type argument of `ty`, which must be a path ending in
/// `expected<...>`; otherwise the first problem found, and where.
pub open spec fn inner_type_spec(ty: TypeModel, expected: Seq<char>) -> Result<TypeModel, ErrView> {
    match ty.shape {
        TypeShape::Other => Err((msg_expected_type(expected), ty.span)),
        TypeShape::Path(segments) => if segments@.len() == 0 {
            Err(("Unexpected empty type path"@, ty.span))
        } else {
            let segment = segments@.last();
            if segment.ident.name@ != expected {
                Err((msg_expected_type(expected), segment.ident.span))
            } else {
                match segment.arguments {
                    PathArgumentsModel::AngleBracketed(args) => if args@.len() == 0 {
                        Err((msg_empty_arguments(expected), ty.span))
                    } else if args@.len() != 1 {
                        Err(("Expected only one generic argument"@, segment.arguments_span))
                    } else {
                        match args@[0] {
                            GenericArgModel::Type(inner) => Ok(inner),
                            GenericArgModel::Other { span } => Err(
                                (msg_argument_not_type(expected), span),
                            ),
                        }
                    },
                    _ => Err((msg_explicit_arguments(expected), ty.span)),
                }
            }
        },
    }
}

pub open spec fn missing_name() -> Seq<char> {
    "Expect field to have a name"@
}

/// `name: Option<ty>`
pub open spec fn default_member_spec(f: FieldModel) -> Result<Seq<TokenView>, ErrView> {
    match f.ident {
        None => Err((missing_name(), f.span)),
        Some(i) => Ok(
            seq![i.tok(), p(':'), id("Option"@), p('<'), TokenView::Splice(f.ty.fragment), p('>')],
        ),
    }
}

/// The field as declared, without its attributes.
pub open spec fn raw_member_spec(f: FieldModel) -> Result<Seq<TokenView>, ErrView> {
    Ok(
        seq![TokenView::Splice(f.vis)] + match f.ident {
            Some(i) => seq![
                i.tok(),
                TokenView::Punct(
                    ':',
                    Spacing::Alone,
                    match f.colon_span {
                        Some(s) => s,
                        None => SpanRef::CallSite,
                    },
                ),
            ],
            None => Seq::empty(),
        } + seq![TokenView::Splice(f.ty.fragment)],
    )
}

pub open spec fn member_spec(f: FieldModel) -> Result<Seq<TokenView>, ErrView> {
    match field_category_spec(f) {
        FieldCategory::Default => default_member_spec(f),
        _ => raw_member_spec(f),
    }
}

/// An identifier made from a field's name and a prefix, where the name stands.
pub open spec fn prefixed_ident(prefix: Seq<char>, i: IdentModel) -> TokenView {
    TokenView::Ident(prefix + i.name@, i.span)
}

/// `self.name.method(value);`
pub open spec fn call_on_field(i: IdentModel, method: Seq<char>) -> Seq<TokenView> {
    seq![id("self"@), p('.'), i.tok(), p('.'), id(method)] + grouped(
        Delimiter::Parenthesis,
        seq![id("value"@)],
    ) + seq![p(';')]
}

/// `pub fn by_ref(&mut self, value: ty) { self.name.method(value); }` and
/// `pub fn by_value(mut self, value: ty) -> Self { self.name.method(value); self }`
pub open spec fn accessors_toks(
    by_ref: TokenView,
    by_value: TokenView,
    i: IdentModel,
    ty_fragment: usize,
    method: Seq<char>,
) -> Seq<TokenView> {
    seq![id("pub"@), id("fn"@), by_ref] + grouped(
        Delimiter::Parenthesis,
        seq![p('&'), id("mut"@), id("self"@), p(','), id("value"@), p(':'), TokenView::Splice(ty_fragment)],
    ) + grouped(Delimiter::Brace, call_on_field(i, method)) + seq![id("pub"@), id("fn"@), by_value]
        + grouped(
        Delimiter::Parenthesis,
        seq![id("mut"@), id("self"@), p(','), id("value"@), p(':'), TokenView::Splice(ty_fragment)],
    ) + seq![pj('-'), p('>'), id("Self"@)] + grouped(
        Delimiter::Brace,
        call_on_field(i, method) + seq![id("self"@)],
    )
}

/// `set_name` and `with_name`, taking the field's type, or for an
/// `#[optional]` field the type inside its `Option`.
pub open spec fn singular_builders_spec(f: FieldModel) -> Result<Seq<TokenView>, ErrView> {
    match f.ident {
        None => Err((missing_name(), f.span)),
        Some(i) => {
            let ty = if field_category_spec(f) == FieldCategory::Optional {
                inner_type_spec(f.ty, "Option"@)
            } else {
                Ok(f.ty)
            };
            match ty {
                Err(e) => Err(e),
                Ok(t) => Ok(
                    accessors_toks(
                        prefixed_ident("set_"@, i),
                        prefixed_ident("with_"@, i),
                        i,
                        t.fragment,
                        "replace"@,
                    ),
                ),
            }
        },
    }
}

/// `push_name` and `add_name`, taking the type inside the field's `Vec`.
pub open spec fn list_builders_spec(f: FieldModel) -> Result<Seq<TokenView>, ErrView> {
    match f.ident {
        None => Err((missing_name(), f.span)),
        Some(i) => match inner_type_spec(f.ty, "Vec"@) {
            Err(e) => Err(e),
            Ok(t) => Ok(
                accessors_toks(
                    prefixed_ident("push_"@, i),
                    prefixed_ident("add_"@, i),
                    i,
                    t.fragment,
                    "push"@,
                ),
            ),
        },
    }
}

pub open spec fn builders_spec(f: FieldModel) -> Result<Seq<TokenView>, ErrView> {
    match field_category_spec(f) {
        FieldCategory::Vec => list_builders_spec(f),
        _ => singular_builders_spec(f),
    }
}

/// `::cknittel_util::builder::error::`
pub open spec fn error_module_path() -> Seq<TokenView> {
    colon2() + seq![id("cknittel_util"@)] + colon2() + seq![id("builder"@)] + colon2() + seq![id("error"@)]
        + colon2()
}

/// How `build` fills one field: a required field must have been set, the
/// others are moved over.
pub open spec fn initializer_spec(f: FieldModel) -> Seq<TokenView> {
    let i = f.ident->0;
    if field_category_spec(f) == FieldCategory::Default {
        seq![i.tok(), p(':'), id("self"@), p('.'), i.tok(), p('.'), id("ok_or_else"@)] + grouped(
            Delimiter::Parenthesis,
            seq![pj('|'), p('|')] + grouped(
                Delimiter::Brace,
                error_module_path() + seq![id("BuilderError"@)] + colon2() + seq![id("missing_field"@)]
                    + grouped(Delimiter::Parenthesis, seq![TokenView::StrLiteral(i.name@)]),
            ),
        ) + seq![p('?'), p(',')]
    } else {
        seq![i.tok(), p(':'), id("self"@), p('.'), i.tok(), p(',')]
    }
}

/// `pub fn build(self) -> ::cknittel_util::builder::error::BuilderResult<T<params>> { Ok(T { ... }) }`,
/// where `params` are the struct's generic parameters without their bounds.
pub open spec fn build_spec(fields: Seq<FieldModel>, result_type: IdentModel, generics: GenericsModel) -> Seq<TokenView> {
    seq![id("pub"@), id("fn"@), id("build"@)] + grouped(Delimiter::Parenthesis, seq![id("self"@)])
        + seq![pj('-'), p('>')] + error_module_path() + seq![id("BuilderResult"@), p('<'), result_type.tok()]
        + stripped_generics(generics) + seq![p('>')]
        + grouped(
        Delimiter::Brace,
        seq![id("Ok"@)] + grouped(
            Delimiter::Parenthesis,
            seq![result_type.tok()] + grouped(
                Delimiter::Brace,
                flatten(fields.map_values(|f: FieldModel| initializer_spec(f))),
            ),
        ),
    )
}

/// The builder struct, with the generic parameters and `where` clause of the
/// struct it builds, and its impl.
pub open spec fn builder_output(
    builder_ident: TokenView,
    generics: GenericsModel,
    members: Seq<TokenView>,
    field_builders: Seq<TokenView>,
    build: Seq<TokenView>,
) -> Seq<TokenView> {
    seq![p('#')] + grouped(
        Delimiter::Bracket,
        seq![id("derive"@)] + grouped(Delimiter::Parenthesis, seq![id("Default"@)]),
    ) + seq![id("struct"@), builder_ident, TokenView::Splice(generics.fragment), TokenView::Splice(generics.where_clause)]
        + grouped(Delimiter::Brace, members)
        + seq![id("impl"@), TokenView::Splice(generics.fragment), builder_ident] + stripped_generics(generics)
        + seq![TokenView::Splice(generics.where_clause)]
        + grouped(Delimiter::Brace, field_builders + build)
}

/// What deriving a builder gives: the builder, or the first problem found
/// in the members, then in the setters.
pub open spec fn builder_impl_spec(input: DeriveInputModel) -> Result<Seq<TokenView>, ErrView> {
    match input.data {
        DataModel::Struct(fields) => {
            let members = try_flatten(
                interleave(
                    fields@.map_values(|f: FieldModel| member_spec(f)),
                    Ok(seq![p(',')]),
                ),
            );
            let field_builders = try_flatten(fields@.map_values(|f: FieldModel| builders_spec(f)));
            match (members, field_builders) {
                (Err(e), _) => Err(e),
                (Ok(_), Err(e)) => Err(e),
                (Ok(ms), Ok(bs)) => Ok(
                    builder_output(
                        prefixed_builder_ident(input.ident),
                        input.generics,
                        ms,
                        bs,
                        build_spec(fields@, input.ident, input.generics),
                    ),
                ),
            }
        },
        _ => Err(("Can only derive `Builder` on a struct"@, input.ident.span)),
    }
}

/// `NameBuilder`, where the struct's name stands.
pub open spec fn prefixed_builder_ident(i: IdentModel) -> TokenView {
    TokenView::Ident(i.name@ + "Builder"@, i.span)
}

/// The attribute's path is the single identifier `name`.
pub open spec fn attr_named(a: AttributeModel, name: Seq<char>) -> bool {
    a.path_ident matches Some(n) && n@ == name
}

/// The attribute is neither `optional` nor `vec`.
pub open spec fn unmarked(a: AttributeModel) -> bool {
    !attr_named(a, "optional"@) && !attr_named(a, "vec"@)
}

proof fn lemma_first_category_none(attrs: Seq<AttributeModel>)
    requires
        forall|k: int| 0 <= k < attrs.len() ==> unmarked(#[trigger] attrs[k]),
    ensures
        first_category(attrs) is None,
    decreases attrs.len(),
{
    if attrs.len() > 0 {
        let rest = attrs.drop_first();
        assert(unmarked(attrs[0]));
        assert forall|k: int| 0 <= k < rest.len() implies unmarked(#[trigger] rest[k]) by {
            assert(rest[k] == attrs[k + 1]);
        }
        lemma_first_category_none(rest);
    }
}

proof fn lemma_first_category_at(attrs: Seq<AttributeModel>, k: int)
    requires
        0 <= k < attrs.len(),
        forall|j: int| 0 <= j < k ==> unmarked(#[trigger] attrs[j]),
    ensures
        attr_named(attrs[k], "optional"@) ==> first_category(attrs) == Some(FieldCategory::Optional),
        attr_named(attrs[k], "vec"@) ==> first_category(attrs) == Some(FieldCategory::Vec),
    decreases k,
{
    reveal_strlit("optional");
    reveal_strlit("vec");
    assert("vec"@.len() != "optional"@.len());
    if k > 0 {
        let rest = attrs.drop_first();
        assert(unmarked(attrs[0]));
        assert forall|j: int| 0 <= j < k - 1 implies unmarked(#[trigger] rest[j]) by {
            assert(rest[j] == attrs[j + 1]);
        }
        assert(rest[k - 1] == attrs[k]);
        lemma_first_category_at(rest, k - 1);
    }
}

/// Which fields `build` requires: a field none of whose attributes is
/// `optional` or `vec` is required (category `Default`) whatever its type;
/// otherwise the first of those attributes decides, `optional` making the
/// field optional and `vec` a list.
pub proof fn lemma_field_category_by_attributes(f: FieldModel)
    ensures
        (forall|k: int| 0 <= k < f.attrs@.len() ==> unmarked(#[trigger] f.attrs@[k]))
            ==> field_category_spec(f) == FieldCategory::Default,
        forall|k: int|
            0 <= k < f.attrs@.len() && (forall|j: int| 0 <= j < k ==> unmarked(#[trigger] f.attrs@[j]))
                ==> (#[trigger] attr_named(f.attrs@[k], "optional"@) ==> field_category_spec(f) == FieldCategory::Optional)
                && (attr_named(f.attrs@[k], "vec"@) ==> field_category_spec(f) == FieldCategory::Vec),
{
    if forall|k: int| 0 <= k < f.attrs@.len() ==> unmarked(#[trigger] f.attrs@[k]) {
        lemma_first_category_none(f.attrs@);
    }
    assert forall|k: int|
        0 <= k < f.attrs@.len() && (forall|j: int| 0 <= j < k ==> unmarked(#[trigger] f.attrs@[j]))
        implies (#[trigger] attr_named(f.attrs@[k], "optional"@) ==> field_category_spec(f) == FieldCategory::Optional)
            && (attr_named(f.attrs@[k], "vec"@) ==> field_category_spec(f) == FieldCategory::Vec) by {
        lemma_first_category_at(f.attrs@, k);
    }
}

pub fn attribute_category(attr: &AttributeModel) -> (r: Option<FieldCategory>)
    ensures
        r == attribute_category_spec(*attr),
{
    match &attr.path_ident {
        Some(name) => {
            let optional = String::from_str("optional");
            let vec = String::from_str("vec");
            if name.eq(&optional) {
                Some(FieldCategory::Optional)
            } else if name.eq(&vec) {
                Some(FieldCategory::Vec)
            } else {
                None
            }
        },
        None => None,
    }
}

pub fn field_category(field: &FieldModel) -> (r: FieldCategory)
    ensures
        r == field_category_spec(*field),
{
    let attrs = &field.attrs;
    let mut k: usize = 0;
    proof {
        assert(attrs@.subrange(0, attrs@.len() as int) =~= attrs@);
    }
    while k < attrs.len()
        invariant
            k <= attrs@.len(),
            attrs@ == field.attrs@,
            first_category(attrs@) == first_category(attrs@.subrange(k as int, attrs@.len() as int)),
        decreases attrs@.len() - k,
    {
        proof {
            let rest = attrs@.subrange(k as int, attrs@.len() as int);
            assert(rest[0] == attrs@[k as int]);
            assert(rest.drop_first() =~= attrs@.subrange(k + 1, attrs@.len() as int));
        }
        if let Some(category) = attribute_category(&attrs[k]) {
            proof {
                let rest = attrs@.subrange(k as int, attrs@.len() as int);
                assert(first_category(rest) == Some(category));
            }
            return category;
        }
        k = k + 1;
    }
    proof {
        assert(attrs@.subrange(k as int, attrs@.len() as int) =~= Seq::<AttributeModel>::empty());
    }
    FieldCategory::Default
}

pub fn extract_inner_type<'a>(ty: &'a TypeModel, expected_type_name: &str) -> (r: Result<&'a TypeModel, BuilderInternalError>)
    ensures
        match r {
            Ok(t) => inner_type_spec(*ty, expected_type_name@) == Ok::<TypeModel, ErrView>(*t),
            Err(e) => inner_type_spec(*ty, expected_type_name@) == Err::<TypeModel, ErrView>(e@),
        },
{
    let segments = match &ty.shape {
        TypeShape::Path(segments) => segments,
        TypeShape::Other => {
            return Err(BuilderInternalError::new(
                String::from_str("Expected field to have type `").concat(expected_type_name).concat("<...>`"),
                ty.span,
            ));
        },
    };
    if segments.len() == 0 {
        return Err(BuilderInternalError::new(String::from_str("Unexpected empty type path"), ty.span));
    }
    let segment = &segments[segments.len() - 1];
    let expected = String::from_str(expected_type_name);
    if !segment.ident.name.eq(&expected) {
        return Err(BuilderInternalError::new(
            String::from_str("Expected field to have type `").concat(expected_type_name).concat("<...>`"),
            segment.ident.span,
        ));
    }
    let args = match &segment.arguments {
        PathArgumentsModel::AngleBracketed(args) => args,
        _ => {
            return Err(BuilderInternalError::new(
                String::from_str("`optional` tag requires explicit generic arguments to `").concat(
                    expected_type_name,
                ).concat("`"),
                ty.span,
            ));
        },
    };
    if args.len() == 0 {
        return Err(BuilderInternalError::new(
            String::from_str("Unexpected empty generic arguments to `").concat(expected_type_name).concat("`"),
            ty.span,
        ));
    }
    if args.len() != 1 {
        return Err(BuilderInternalError::new(
            String::from_str("Expected only one generic argument"),
            segment.arguments_span,
        ));
    }
    match &args[0] {
        GenericArgModel::Type(inner) => Ok(inner),
        GenericArgModel::Other { span } => Err(BuilderInternalError::new(
            String::from_str("Expected inner generic argument of `").concat(expected_type_name).concat(
                "` to be a type",
            ),
            *span,
        )),
    }
}

/// A generated stream or error, as values.
pub open spec fn out_view(r: Result<Vec<Token>, BuilderInternalError>) -> Result<Seq<TokenView>, ErrView> {
    map_err(res_toks(r), |e: BuilderInternalError| err_view(e))
}

fn missing_name_error(field: &FieldModel) -> (r: BuilderInternalError)
    ensures
        r@ == (missing_name(), field.span),
{
    BuilderInternalError::new(String::from_str("Expect field to have a name"), field.span)
}

pub fn generate_default_field_member(field: &FieldModel) -> (r: Result<Vec<Token>, BuilderInternalError>)
    ensures
        out_view(r) == default_member_spec(*field),
{
    let ident = match &field.ident {
        Some(ident) => ident,
        None => {
            return Err(missing_name_error(field));
        },
    };
    let mut out: Vec<Token> = Vec::new();
    push_tok(&mut out, ident.to_token());
    push_punct(&mut out, ':');
    push_ident(&mut out, "Option");
    push_punct(&mut out, '<');
    push_splice(&mut out, field.ty.fragment);
    push_punct(&mut out, '>');
    proof {
        assert(toks(out@) =~= default_member_spec(*field)->Ok_0);
    }
    Ok(out)
}

pub fn generate_raw_field_member(field: &FieldModel) -> (r: Result<Vec<Token>, BuilderInternalError>)
    ensures
        out_view(r) == raw_member_spec(*field),
{
    // The field as declared, leaving out its attributes.
    let mut out: Vec<Token> = Vec::new();
    push_splice(&mut out, field.vis);
    if let Some(ident) = &field.ident {
        push_tok(&mut out, ident.to_token());
        let span = match field.colon_span {
            Some(span) => span,
            None => SpanRef::CallSite,
        };
        push_tok(&mut out, Token::Punct { ch: ':', spacing: Spacing::Alone, span });
    }
    push_splice(&mut out, field.ty.fragment);
    proof {
        assert(toks(out@) =~= raw_member_spec(*field)->Ok_0);
    }
    Ok(out)
}

pub fn generate_member_for_field(field: &FieldModel) -> (r: Result<Vec<Token>, BuilderInternalError>)
    ensures
        out_view(r) == member_spec(*field),
{
    match field_category(field) {
        FieldCategory::Default => generate_default_field_member(field),
        FieldCategory::Optional | FieldCategory::Vec => generate_raw_field_member(field),
    }
}

/// An identifier made of `prefix` and the name of `ident`, where `ident`
/// stands.
fn prefixed(prefix: &str, ident: &IdentModel) -> (r: Token)
    ensures
        r@ == prefixed_ident(prefix@, *ident),
{
    Token::Ident { name: String::from_str(prefix).concat(ident.name.as_str()), span: ident.span }
}

/// Appends `self.name.method(value);`.
fn push_call_on_field(out: &mut Vec<Token>, ident: &IdentModel, method: &str)
    ensures
        toks(final(out)@) == toks(old(out)@) + call_on_field(*ident, method@),
{
    let ghost before = toks(out@);
    push_ident(out, "self");
    push_punct(out, '.');
    push_tok(out, ident.to_token());
    push_punct(out, '.');
    push_ident(out, method);
    push_open(out, Delimiter::Parenthesis);
    push_ident(out, "value");
    push_close(out, Delimiter::Parenthesis);
    push_punct(out, ';');
    proof {
        assert(toks(out@) =~= before + call_on_field(*ident, method@));
    }
}

/// The two accessors of a field, by reference and by value.
fn accessors(by_ref: Token, by_value: Token, ident: &IdentModel, ty_fragment: usize, method: &str) -> (r: Vec<Token>)
    ensures
        toks(r@) == accessors_toks(by_ref@, by_value@, *ident, ty_fragment, method@),
{
    let ghost by_ref_view = by_ref@;
    let ghost by_value_view = by_value@;
    let mut out: Vec<Token> = Vec::new();
    push_ident(&mut out, "pub");
    push_ident(&mut out, "fn");
    push_tok(&mut out, by_ref);
    push_open(&mut out, Delimiter::Parenthesis);
    push_punct(&mut out, '&');
    push_ident(&mut out, "mut");
    push_ident(&mut out, "self");
    push_punct(&mut out, ',');
    push_ident(&mut out, "value");
    push_punct(&mut out, ':');
    push_splice(&mut out, ty_fragment);
    push_close(&mut out, Delimiter::Parenthesis);
    push_open(&mut out, Delimiter::Brace);
    push_call_on_field(&mut out, ident, method);
    push_close(&mut out, Delimiter::Brace);
    push_ident(&mut out, "pub");
    push_ident(&mut out, "fn");
    push_tok(&mut out, by_value);
    push_open(&mut out, Delimiter::Parenthesis);
    push_ident(&mut out, "mut");
    push_ident(&mut out, "self");
    push_punct(&mut out, ',');
    push_ident(&mut out, "value");
    push_punct(&mut out, ':');
    push_splice(&mut out, ty_fragment);
    push_close(&mut out, Delimiter::Parenthesis);
    push_rarrow(&mut out);
    push_ident(&mut out, "Self");
    push_open(&mut out, Delimiter::Brace);
    push_call_on_field(&mut out, ident, method);
    push_ident(&mut out, "self");
    push_close(&mut out, Delimiter::Brace);
    proof {
        assert(toks(out@) =~= accessors_toks(by_ref_view, by_value_view, *ident, ty_fragment, method@));
    }
    out
}

pub fn generate_builders_for_singular_field(field: &FieldModel) -> (r: Result<Vec<Token>, BuilderInternalError>)
    requires
        field_category_spec(*field) != FieldCategory::Vec,
    ensures
        out_view(r) == singular_builders_spec(*field),
{
    let ident = match &field.ident {
        Some(ident) => ident,
        None => {
            return Err(missing_name_error(field));
        },
    };
    let with = prefixed("with_", ident);
    let setter = prefixed("set_", ident);
    let ty = match field_category(field) {
        FieldCategory::Default => &field.ty,
        FieldCategory::Optional => match extract_inner_type(&field.ty, "Option") {
            Ok(ty) => ty,
            Err(e) => {
                return Err(e);
            },
        },
        FieldCategory::Vec => {
            proof {
                assert(false);
            }
            &field.ty
        },
    };
    Ok(accessors(setter, with, ident, ty.fragment, "replace"))
}

pub fn generate_builders_for_list_field(field: &FieldModel) -> (r: Result<Vec<Token>, BuilderInternalError>)
    requires
        field_category_spec(*field) == FieldCategory::Vec,
    ensures
        out_view(r) == list_builders_spec(*field),
{
    let ident = match &field.ident {
        Some(ident) => ident,
        None => {
            return Err(missing_name_error(field));
        },
    };
    let push = prefixed("push_", ident);
    let add = prefixed("add_", ident);
    let ty = match extract_inner_type(&field.ty, "Vec") {
        Ok(ty) => ty,
        Err(e) => {
            return Err(e);
        },
    };
    Ok(accessors(push, add, ident, ty.fragment, "push"))
}

pub fn generate_builders_for_field(field: &FieldModel) -> (r: Result<Vec<Token>, BuilderInternalError>)
    ensures
        out_view(r) == builders_spec(*field),
{
    match field_category(field) {
        FieldCategory::Default | FieldCategory::Optional => generate_builders_for_singular_field(field),
        FieldCategory::Vec => generate_builders_for_list_field(field),
    }
}

/// How `build` fills the field: a required field must have been set, the
/// others are moved over.
fn field_initializer(field: &FieldModel) -> (r: Vec<Token>)
    requires
        field.ident is Some,
    ensures
        toks(r@) == initializer_spec(*field),
{
    let ident = match &field.ident {
        Some(ident) => ident,
        None => {
            proof {
                assert(false);
            }
            return Vec::new();
        },
    };
    let mut out: Vec<Token> = Vec::new();
    match field_category(field) {
        FieldCategory::Default => {
            push_tok(&mut out, ident.to_token());
            push_punct(&mut out, ':');
            push_ident(&mut out, "self");
            push_punct(&mut out, '.');
            push_tok(&mut out, ident.to_token());
            push_punct(&mut out, '.');
            push_ident(&mut out, "ok_or_else");
            push_open(&mut out, Delimiter::Parenthesis);
            push_tok(&mut out, Token::Punct { ch: '|', spacing: Spacing::Joint, span: SpanRef::CallSite });
            push_punct(&mut out, '|');
            push_open(&mut out, Delimiter::Brace);
            push_error_module_path(&mut out);
            push_ident(&mut out, "BuilderError");
            push_colon2(&mut out);
            push_ident(&mut out, "missing_field");
            push_open(&mut out, Delimiter::Parenthesis);
            push_tok(&mut out, Token::StrLiteral { value: ident.name.clone() });
            push_close(&mut out, Delimiter::Parenthesis);
            push_close(&mut out, Delimiter::Brace);
            push_close(&mut out, Delimiter::Parenthesis);
            push_punct(&mut out, '?');
            push_punct(&mut out, ',');
        },
        FieldCategory::Optional | FieldCategory::Vec => {
            push_tok(&mut out, ident.to_token());
            push_punct(&mut out, ':');
            push_ident(&mut out, "self");
            push_punct(&mut out, '.');
            push_tok(&mut out, ident.to_token());
            push_punct(&mut out, ',');
        },
    }
    proof {
        assert(toks(out@) =~= initializer_spec(*field));
    }
    out
}

/// Appends `::cknittel_util::builder::error::`.
fn push_error_module_path(out: &mut Vec<Token>)
    ensures
        toks(final(out)@) == toks(old(out)@) + error_module_path(),
{
    let ghost before = toks(out@);
    push_colon2(out);
    push_ident(out, "cknittel_util");
    push_colon2(out);
    push_ident(out, "builder");
    push_colon2(out);
    push_ident(out, "error");
    push_colon2(out);
    proof {
        assert(toks(out@) =~= before + error_module_path());
    }
}

/// The `build` method of the builder of `result_type`, whose fields are
/// `fields` and whose generic parameters are `generics`.
pub fn generate_build(
    fields: &Vec<FieldModel>,
    result_type: &IdentModel,
    generics: &GenericsModel,
) -> (r: Result<Vec<Token>, BuilderInternalError>)
    requires
        forall|k: int| 0 <= k < fields@.len() ==> (#[trigger] fields@[k]).ident is Some,
    ensures
        r is Ok,
        toks(r->Ok_0@) == build_spec(fields@, *result_type, *generics),
{
    let mut initializers: Vec<Result<Vec<Token>, BuilderInternalError>> = Vec::new();
    let mut k: usize = 0;
    while k < fields.len()
        invariant
            k <= fields@.len(),
            initializers@.len() == k,
            forall|j: int| 0 <= j < fields@.len() ==> (#[trigger] fields@[j]).ident is Some,
            forall|j: int| 0 <= j < k ==> res_toks(#[trigger] initializers@[j]) == Ok::<Seq<TokenView>, BuilderInternalError>(initializer_spec(fields@[j])),
        decreases fields@.len() - k,
    {
        initializers.push(Ok(field_initializer(&fields[k])));
        k = k + 1;
    }
    let ghost items = initializers@;
    proof {
        let views = res_views(items);
        assert forall|j: int| 0 <= j < views.len() implies #[trigger] views[j] is Ok by {}
        lemma_try_flatten_all_ok(views);
        assert(views.map_values(|r: Result<Seq<TokenView>, BuilderInternalError>| r->Ok_0)
            =~= fields@.map_values(|f: FieldModel| initializer_spec(f)));
    }
    let field_initializers = match initializers.into_iter().try_collect_tokens() {
        Ok(tokens) => tokens,
        Err(e) => {
            return Err(e);
        },
    };
    let mut out: Vec<Token> = Vec::new();
    push_ident(&mut out, "pub");
    push_ident(&mut out, "fn");
    push_ident(&mut out, "build");
    push_open(&mut out, Delimiter::Parenthesis);
    push_ident(&mut out, "self");
    push_close(&mut out, Delimiter::Parenthesis);
    push_rarrow(&mut out);
    push_error_module_path(&mut out);
    push_ident(&mut out, "BuilderResult");
    push_punct(&mut out, '<');
    push_tok(&mut out, result_type.to_token());
    push_all(&mut out, generics.strip_trait_bounds());
    push_punct(&mut out, '>');
    push_open(&mut out, Delimiter::Brace);
    push_ident(&mut out, "Ok");
    push_open(&mut out, Delimiter::Parenthesis);
    push_tok(&mut out, result_type.to_token());
    push_open(&mut out, Delimiter::Brace);
    push_all(&mut out, field_initializers);
    push_close(&mut out, Delimiter::Brace);
    push_close(&mut out, Delimiter::Parenthesis);
    push_close(&mut out, Delimiter::Brace);
    proof {
        assert(toks(out@) =~= build_spec(fields@, *result_type, *generics));
    }
    Ok(out)
}

/// `NameBuilder`, where the struct's name stands.
fn builder_ident(ident: &IdentModel) -> (r: Token)
    ensures
        r@ == prefixed_builder_ident(*ident),
{
    Token::Ident { name: ident.name.clone().concat("Builder"), span: ident.span }
}

/// The members of the builder struct, separated by commas, or the first
/// problem found.
fn builder_members(fields: &Vec<FieldModel>) -> (r: Result<Vec<Token>, BuilderInternalError>)
    ensures
        out_view(r) == try_flatten(
            interleave(fields@.map_values(|f: FieldModel| member_spec(f)), Ok(seq![p(',')])),
        ),
{
    let mut members: Vec<Result<Vec<Token>, BuilderInternalError>> = Vec::new();
    let mut k: usize = 0;
    while k < fields.len()
        invariant
            k <= fields@.len(),
            members@.len() == k,
            forall|j: int| 0 <= j < k ==> out_view(#[trigger] members@[j]) == member_spec(fields@[j]),
        decreases fields@.len() - k,
    {
        members.push(generate_member_for_field(&fields[k]));
        k = k + 1;
    }
    let ghost items = members@;
    let separator = || -> (r: Result<Vec<Token>, BuilderInternalError>)
        ensures
            out_view(r) == Ok::<Seq<TokenView>, ErrView>(seq![p(',')]),
        { Ok(comma()) };
    let joined = members.into_iter().join_with(separator);
    let ghost joined_items = joined@;
    let r = joined.into_iter().try_collect_tokens();
    proof {
        let view = |x: Result<Vec<Token>, BuilderInternalError>| out_view(x);
        lemma_joined_is_interleave(items, joined_items, separator, view, Ok(seq![p(',')]));
        let f = |e: BuilderInternalError| err_view(e);
        lemma_try_flatten_map_err(res_views(joined_items), f);
        assert(res_views(joined_items).map_values(|x: Result<Seq<TokenView>, BuilderInternalError>| map_err(x, f))
            =~= joined_items.map_values(view));
        assert(items.map_values(view) =~= fields@.map_values(|f: FieldModel| member_spec(f)));
    }
    r
}

/// The accessors of all fields, or the first problem found.
fn builder_accessors(fields: &Vec<FieldModel>) -> (r: Result<Vec<Token>, BuilderInternalError>)
    ensures
        out_view(r) == try_flatten(fields@.map_values(|f: FieldModel| builders_spec(f))),
{
    let mut builders: Vec<Result<Vec<Token>, BuilderInternalError>> = Vec::new();
    let mut k: usize = 0;
    while k < fields.len()
        invariant
            k <= fields@.len(),
            builders@.len() == k,
            forall|j: int| 0 <= j < k ==> out_view(#[trigger] builders@[j]) == builders_spec(fields@[j]),
        decreases fields@.len() - k,
    {
        builders.push(generate_builders_for_field(&fields[k]));
        k = k + 1;
    }
    let ghost items = builders@;
    let r = builders.into_iter().try_collect_tokens();
    proof {
        let f = |e: BuilderInternalError| err_view(e);
        lemma_try_flatten_map_err(res_views(items), f);
        assert(res_views(items).map_values(|x: Result<Seq<TokenView>, BuilderInternalError>| map_err(x, f))
            =~= fields@.map_values(|f: FieldModel| builders_spec(f)));
    }
    r
}

/// Every field with accessors has a name.
proof fn lemma_builders_named(fields: Seq<FieldModel>)
    requires
        try_flatten(fields.map_values(|f: FieldModel| builders_spec(f))) is Ok,
    ensures
        forall|k: int| 0 <= k < fields.len() ==> (#[trigger] fields[k]).ident is Some,
{
    let s = fields.map_values(|f: FieldModel| builders_spec(f));
    lemma_try_flatten_ok_each(s);
    assert forall|k: int| 0 <= k < fields.len() implies (#[trigger] fields[k]).ident is Some by {
        assert(s[k] is Ok);
    }
}

/// The builder of the struct `input`.
pub fn build_builder_impl(input: DeriveInputModel) -> (r: Result<Vec<Token>, BuilderInternalError>)
    ensures
        out_view(r) == builder_impl_spec(input),
{
    let fields = match &input.data {
        DataModel::Struct(fields) => fields,
        _ => {
            return Err(BuilderInternalError::new(
                String::from_str("Can only derive `Builder` on a struct"),
                input.ident.span,
            ));
        },
    };
    // The builder has the fields of the struct it builds.
    let members = match builder_members(fields) {
        Ok(members) => members,
        Err(e) => {
            return Err(e);
        },
    };
    let field_builders = match builder_accessors(fields) {
        Ok(field_builders) => field_builders,
        Err(e) => {
            return Err(e);
        },
    };
    proof {
        lemma_builders_named(fields@);
    }
    let builder = match generate_build(fields, &input.ident, &input.generics) {
        Ok(builder) => builder,
        Err(e) => {
            return Err(e);
        },
    };
    let mut out: Vec<Token> = Vec::new();
    push_punct(&mut out, '#');
    push_open(&mut out, Delimiter::Bracket);
    push_ident(&mut out, "derive");
    push_open(&mut out, Delimiter::Parenthesis);
    push_ident(&mut out, "Default");
    push_close(&mut out, Delimiter::Parenthesis);
    push_close(&mut out, Delimiter::Bracket);
    push_ident(&mut out, "struct");
    push_tok(&mut out, builder_ident(&input.ident));
    push_splice(&mut out, input.generics.fragment);
    push_splice(&mut out, input.generics.where_clause);
    push_open(&mut out, Delimiter::Brace);
    push_all(&mut out, members);
    push_close(&mut out, Delimiter::Brace);
    push_ident(&mut out, "impl");
    push_splice(&mut out, input.generics.fragment);
    push_tok(&mut out, builder_ident(&input.ident));
    push_all(&mut out, input.generics.strip_trait_bounds());
    push_splice(&mut out, input.generics.where_clause);
    push_open(&mut out, Delimiter::Brace);
    push_all(&mut out, field_builders);
    push_all(&mut out, builder);
    push_close(&mut out, Delimiter::Brace);
    proof {
        assert(toks(out@) =~= builder_impl_spec(input)->Ok_0);
    }
    Ok(out)
}

} // verus!
