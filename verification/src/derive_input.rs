//! What the code generators read of the item they derive for, as plain
//! values. Spans and fragments of source that are copied into the output are
//! carried as handles (`SpanRef::Input(k)`, `Token::Splice(k)`).
use crate::tokens::{IdentModel, SpanRef};
use vstd::prelude::*;

verus! {

/// An attribute: the identifier its path consists of, when the path is a
/// single plain identifier.
pub struct AttributeModel {
    pub path_ident: Option<String>,
}

pub enum GenericArgModel {
    Type(TypeModel),
    /// A lifetime, constant, binding or constraint.
    Other { span: SpanRef },
}

pub enum PathArgumentsModel {
    Empty,
    AngleBracketed(Vec<GenericArgModel>),
    Parenthesized,
}

pub struct PathSegmentModel {
    pub ident: IdentModel,
    pub arguments: PathArgumentsModel,
    pub arguments_span: SpanRef,
}

pub enum TypeShape {
    /// A path such as `std::vec::Vec<T>`: its segments.
    Path(Vec<PathSegmentModel>),
    Other,
}

pub struct TypeModel {
    /// The type as written.
    pub fragment: usize,
    pub span: SpanRef,
    pub shape: TypeShape,
}

pub struct FieldModel {
    pub attrs: Vec<AttributeModel>,
    /// The visibility as written.
    pub vis: usize,
    pub ident: Option<IdentModel>,
    /// The span of the `:` after the name, if it was written.
    pub colon_span: Option<SpanRef>,
    pub ty: TypeModel,
    pub span: SpanRef,
}

pub enum GenericParamModel {
    /// A lifetime parameter: the lifetime as written.
    Lifetime(usize),
    Type(IdentModel),
    Const(IdentModel),
}

pub struct GenericsModel {
    pub params: Vec<GenericParamModel>,
    /// `<...>` as written, bounds included.
    pub fragment: usize,
    /// The `where` clause as written; an empty fragment where there is none.
    pub where_clause: usize,
}

pub enum FieldsModel {
    Named { span: SpanRef },
    Unnamed { fields: Vec<FieldModel>, span: SpanRef },
    Unit,
}

pub struct VariantModel {
    pub ident: IdentModel,
    pub fields: FieldsModel,
    pub span: SpanRef,
}

pub enum DataModel {
    /// A struct: its fields, named or not.
    Struct(Vec<FieldModel>),
    Enum(Vec<VariantModel>),
    Union,
}

pub struct DeriveInputModel {
    pub ident: IdentModel,
    pub generics: GenericsModel,
    pub data: DataModel,
}

} // verus!
