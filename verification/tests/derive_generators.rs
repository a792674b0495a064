use cknittel_util::builder_macro::{build_builder_impl, extract_inner_type, FieldCategory, field_category};
use cknittel_util::derive_input::{
    AttributeModel, DataModel, DeriveInputModel, FieldModel, FieldsModel, GenericArgModel,
    GenericParamModel, GenericsModel, PathArgumentsModel, PathSegmentModel, TypeModel, TypeShape,
    VariantModel,
};
use cknittel_util::enum_extract::build_extractor;
use cknittel_util::from_variants::build_from_variants_impl;
use cknittel_util::proc_macro_util::collect_tokens::{CollectTokens, TryCollectTokens};
use cknittel_util::proc_macro_util::generics::StripTraitBounds;
use cknittel_util::tokens::{Delimiter, IdentModel, SpanRef, Token};

/// The tokens as text, one space between each two; a copied fragment shows
/// as `$k`.
fn show(tokens: &[Token]) -> String {
    tokens
        .iter()
        .map(|t| match t {
            Token::Ident { name, .. } => name.clone(),
            Token::Punct { ch, .. } => ch.to_string(),
            Token::StrLiteral { value } => format!("{:?}", value),
            Token::Open(Delimiter::Parenthesis) => "(".to_string(),
            Token::Open(Delimiter::Brace) => "{".to_string(),
            Token::Open(Delimiter::Bracket) => "[".to_string(),
            Token::Close(Delimiter::Parenthesis) => ")".to_string(),
            Token::Close(Delimiter::Brace) => "}".to_string(),
            Token::Close(Delimiter::Bracket) => "]".to_string(),
            Token::Splice(k) => format!("${}", k),
        })
        .collect::<Vec<_>>()
        .join(" ")
}

fn ident(name: &str, span: usize) -> IdentModel {
    IdentModel { name: name.to_string(), span: SpanRef::Input(span) }
}

/// A path type `name` (with the given arguments) copied from fragment `fragment`.
fn path_type(name: &str, arguments: PathArgumentsModel, fragment: usize) -> TypeModel {
    TypeModel {
        fragment,
        span: SpanRef::Input(100 + fragment),
        shape: TypeShape::Path(vec![PathSegmentModel {
            ident: ident(name, 200 + fragment),
            arguments,
            arguments_span: SpanRef::Input(300 + fragment),
        }]),
    }
}

fn field(attr: Option<&str>, name: &str, ty: TypeModel) -> FieldModel {
    FieldModel {
        attrs: attr.map(|a| AttributeModel { path_ident: Some(a.to_string()) }).into_iter().collect(),
        vis: 0,
        ident: Some(ident(name, 1)),
        colon_span: None,
        ty,
        span: SpanRef::Input(2),
    }
}

fn no_generics() -> GenericsModel {
    GenericsModel { params: vec![], fragment: 9, where_clause: 8 }
}

fn struct_input(name: &str, fields: Vec<FieldModel>) -> DeriveInputModel {
    DeriveInputModel { ident: ident(name, 3), generics: no_generics(), data: DataModel::Struct(fields) }
}

#[test]
fn test_builder_simple_struct() {
    let input = struct_input(
        "SimpleStruct",
        vec![
            field(None, "int", path_type("i32", PathArgumentsModel::Empty, 1)),
            field(None, "string", path_type("String", PathArgumentsModel::Empty, 2)),
        ],
    );
    let tokens = build_builder_impl(input).ok().expect("a struct gets a builder");
    let expected = "# [ derive ( Default ) ] struct SimpleStructBuilder $9 $8 { int : Option < $1 > , string : Option < $2 > } \
        impl $9 SimpleStructBuilder $8 { \
        pub fn set_int ( & mut self , value : $1 ) { self . int . replace ( value ) ; } \
        pub fn with_int ( mut self , value : $1 ) - > Self { self . int . replace ( value ) ; self } \
        pub fn set_string ( & mut self , value : $2 ) { self . string . replace ( value ) ; } \
        pub fn with_string ( mut self , value : $2 ) - > Self { self . string . replace ( value ) ; self } \
        pub fn build ( self ) - > : : cknittel_util : : builder : : error : : BuilderResult < SimpleStruct > \
        { Ok ( SimpleStruct { \
        int : self . int . ok_or_else ( | | { : : cknittel_util : : builder : : error : : BuilderError : : missing_field ( \"int\" ) } ) ? , \
        string : self . string . ok_or_else ( | | { : : cknittel_util : : builder : : error : : BuilderError : : missing_field ( \"string\" ) } ) ? , \
        } ) } }";
    assert_eq!(show(&tokens), expected);
}

#[test]
fn test_builder_optional_and_vec_fields() {
    let option_of_string = path_type(
        "Option",
        PathArgumentsModel::AngleBracketed(vec![GenericArgModel::Type(path_type(
            "String",
            PathArgumentsModel::Empty,
            5,
        ))]),
        4,
    );
    let vec_of_string = path_type(
        "Vec",
        PathArgumentsModel::AngleBracketed(vec![GenericArgModel::Type(path_type(
            "String",
            PathArgumentsModel::Empty,
            7,
        ))]),
        6,
    );
    let input = struct_input(
        "Mixed",
        vec![field(Some("optional"), "name", option_of_string), field(Some("vec"), "items", vec_of_string)],
    );
    let tokens = build_builder_impl(input).ok().expect("a struct gets a builder");
    let expected = "# [ derive ( Default ) ] struct MixedBuilder $9 $8 { $0 name : $4 , $0 items : $6 } \
        impl $9 MixedBuilder $8 { \
        pub fn set_name ( & mut self , value : $5 ) { self . name . replace ( value ) ; } \
        pub fn with_name ( mut self , value : $5 ) - > Self { self . name . replace ( value ) ; self } \
        pub fn push_items ( & mut self , value : $7 ) { self . items . push ( value ) ; } \
        pub fn add_items ( mut self , value : $7 ) - > Self { self . items . push ( value ) ; self } \
        pub fn build ( self ) - > : : cknittel_util : : builder : : error : : BuilderResult < Mixed > \
        { Ok ( Mixed { name : self . name , items : self . items , } ) } }";
    assert_eq!(show(&tokens), expected);
}

fn missing_field(name: &str) -> String {
    format!(
        "{name} : self . {name} . ok_or_else ( | | {{ : : cknittel_util : : builder : : error : : BuilderError : : missing_field ( \"{name}\" ) }} ) ? ,"
    )
}

#[test]
fn test_build_generic() {
    // struct Generic<T> { field: T, #[vec] vec: Vec<T> }
    let vec_of_t = path_type(
        "Vec",
        PathArgumentsModel::AngleBracketed(vec![GenericArgModel::Type(path_type("T", PathArgumentsModel::Empty, 7))]),
        6,
    );
    let input = DeriveInputModel {
        ident: ident("Generic", 3),
        generics: GenericsModel { params: vec![GenericParamModel::Type(ident("T", 21))], fragment: 22, where_clause: 23 },
        data: DataModel::Struct(vec![
            field(None, "field", path_type("T", PathArgumentsModel::Empty, 1)),
            field(Some("vec"), "vec", vec_of_t),
        ]),
    };
    let tokens = build_builder_impl(input).ok().expect("a generic struct gets a builder");
    let expected = format!(
        "# [ derive ( Default ) ] struct GenericBuilder $22 $23 {{ field : Option < $1 > , $0 vec : $6 }} \
        impl $22 GenericBuilder < T > $23 {{ \
        pub fn set_field ( & mut self , value : $1 ) {{ self . field . replace ( value ) ; }} \
        pub fn with_field ( mut self , value : $1 ) - > Self {{ self . field . replace ( value ) ; self }} \
        pub fn push_vec ( & mut self , value : $7 ) {{ self . vec . push ( value ) ; }} \
        pub fn add_vec ( mut self , value : $7 ) - > Self {{ self . vec . push ( value ) ; self }} \
        pub fn build ( self ) - > : : cknittel_util : : builder : : error : : BuilderResult < Generic < T > > \
        {{ Ok ( Generic {{ {} vec : self . vec , }} ) }} }}",
        missing_field("field")
    );
    assert_eq!(show(&tokens), expected);
}

#[test]
fn test_build_generic_with_bounds() {
    // struct GenericWithBounds<T: Default, U> where U: Default { field1: T, field2: U }
    let input = DeriveInputModel {
        ident: ident("GenericWithBounds", 3),
        generics: GenericsModel {
            params: vec![GenericParamModel::Type(ident("T", 21)), GenericParamModel::Type(ident("U", 24))],
            fragment: 30,
            where_clause: 31,
        },
        data: DataModel::Struct(vec![
            field(None, "field1", path_type("T", PathArgumentsModel::Empty, 1)),
            field(None, "field2", path_type("U", PathArgumentsModel::Empty, 2)),
        ]),
    };
    let tokens = build_builder_impl(input).ok().expect("a generic struct gets a builder");
    let expected = format!(
        "# [ derive ( Default ) ] struct GenericWithBoundsBuilder $30 $31 {{ field1 : Option < $1 > , field2 : Option < $2 > }} \
        impl $30 GenericWithBoundsBuilder < T , U > $31 {{ \
        pub fn set_field1 ( & mut self , value : $1 ) {{ self . field1 . replace ( value ) ; }} \
        pub fn with_field1 ( mut self , value : $1 ) - > Self {{ self . field1 . replace ( value ) ; self }} \
        pub fn set_field2 ( & mut self , value : $2 ) {{ self . field2 . replace ( value ) ; }} \
        pub fn with_field2 ( mut self , value : $2 ) - > Self {{ self . field2 . replace ( value ) ; self }} \
        pub fn build ( self ) - > : : cknittel_util : : builder : : error : : BuilderResult < GenericWithBounds < T , U > > \
        {{ Ok ( GenericWithBounds {{ {} {} }} ) }} }}",
        missing_field("field1"),
        missing_field("field2")
    );
    assert_eq!(show(&tokens), expected);
}

#[test]
fn test_builder_refuses_enum() {
    let input = DeriveInputModel { ident: ident("E", 3), generics: no_generics(), data: DataModel::Enum(vec![]) };
    let err = build_builder_impl(input).err().expect("an enum gets no builder");
    assert_eq!(err.message(), "Can only derive `Builder` on a struct");
    assert!(err.span() == SpanRef::Input(3));
}

#[test]
fn test_builder_optional_field_must_be_option() {
    let input = struct_input(
        "S",
        vec![field(Some("optional"), "name", path_type("String", PathArgumentsModel::Empty, 1))],
    );
    let err = build_builder_impl(input).err().expect("the field is not an Option");
    assert_eq!(err.message(), "Expected field to have type `Option<...>`");
    assert!(err.span() == SpanRef::Input(201));
}

#[test]
fn test_builder_vec_field_needs_arguments() {
    let input = struct_input("S", vec![field(Some("vec"), "items", path_type("Vec", PathArgumentsModel::Empty, 1))]);
    let err = build_builder_impl(input).err().expect("the Vec has no argument");
    assert_eq!(err.message(), "`optional` tag requires explicit generic arguments to `Vec`");
    assert!(err.span() == SpanRef::Input(101));
}

#[test]
fn test_builder_unnamed_field_is_refused() {
    let mut unnamed = field(None, "x", path_type("u8", PathArgumentsModel::Empty, 1));
    unnamed.ident = None;
    let err = build_builder_impl(struct_input("T", vec![unnamed])).err().expect("a tuple struct has no names");
    assert_eq!(err.message(), "Expect field to have a name");
    assert!(err.span() == SpanRef::Input(2));
}

#[test]
fn test_extract_inner_type_errors() {
    let two_args = path_type(
        "Option",
        PathArgumentsModel::AngleBracketed(vec![
            GenericArgModel::Type(path_type("u8", PathArgumentsModel::Empty, 2)),
            GenericArgModel::Type(path_type("u8", PathArgumentsModel::Empty, 3)),
        ]),
        1,
    );
    let err = extract_inner_type(&two_args, "Option").err().expect("two arguments");
    assert_eq!(err.message(), "Expected only one generic argument");
    assert!(err.span() == SpanRef::Input(301));

    let lifetime_arg = path_type(
        "Option",
        PathArgumentsModel::AngleBracketed(vec![GenericArgModel::Other { span: SpanRef::Input(42) }]),
        1,
    );
    let err = extract_inner_type(&lifetime_arg, "Option").err().expect("not a type");
    assert_eq!(err.message(), "Expected inner generic argument of `Option` to be a type");
    assert!(err.span() == SpanRef::Input(42));

    let empty_args = path_type("Option", PathArgumentsModel::AngleBracketed(vec![]), 1);
    let err = extract_inner_type(&empty_args, "Option").err().expect("no argument");
    assert_eq!(err.message(), "Unexpected empty generic arguments to `Option`");

    let not_a_path = TypeModel { fragment: 1, span: SpanRef::Input(7), shape: TypeShape::Other };
    let err = extract_inner_type(&not_a_path, "Vec").err().expect("not a path");
    assert_eq!(err.message(), "Expected field to have type `Vec<...>`");
    assert!(err.span() == SpanRef::Input(7));

    let empty_path = TypeModel { fragment: 1, span: SpanRef::Input(7), shape: TypeShape::Path(vec![]) };
    let err = extract_inner_type(&empty_path, "Vec").err().expect("empty path");
    assert_eq!(err.message(), "Unexpected empty type path");
}

#[test]
fn test_field_category_takes_first_marker() {
    let mut f = field(Some("doc"), "x", path_type("u8", PathArgumentsModel::Empty, 1));
    assert!(field_category(&f) == FieldCategory::Default);
    f.attrs.push(AttributeModel { path_ident: Some("vec".to_string()) });
    f.attrs.push(AttributeModel { path_ident: Some("optional".to_string()) });
    assert!(field_category(&f) == FieldCategory::Vec);
}

fn unnamed_variant(name: &str, types: Vec<TypeModel>) -> VariantModel {
    VariantModel {
        ident: ident(name, 10),
        fields: FieldsModel::Unnamed {
            fields: types
                .into_iter()
                .map(|ty| FieldModel { attrs: vec![], vis: 0, ident: None, colon_span: None, ty, span: SpanRef::Input(11) })
                .collect(),
            span: SpanRef::Input(12),
        },
        span: SpanRef::Input(13),
    }
}

#[test]
fn test_from_variants_simple_enum() {
    let input = DeriveInputModel {
        ident: ident("SimpleEnum", 3),
        generics: no_generics(),
        data: DataModel::Enum(vec![
            unnamed_variant("V1", vec![path_type("i32", PathArgumentsModel::Empty, 1)]),
            VariantModel { ident: ident("Empty", 14), fields: FieldsModel::Unit, span: SpanRef::Input(15) },
            unnamed_variant("V2", vec![path_type("String", PathArgumentsModel::Empty, 2)]),
        ]),
    };
    let tokens = build_from_variants_impl(input).ok().expect("an enum gets From impls");
    let expected = "impl $9 From < $1 > for SimpleEnum < > { fn from ( value : $1 ) - > Self { Self : : V1 ( value ) } } \
        impl $9 From < $2 > for SimpleEnum < > { fn from ( value : $2 ) - > Self { Self : : V2 ( value ) } }";
    assert_eq!(show(&tokens), expected);
}

#[test]
fn test_from_variants_generic_enum() {
    let generics = GenericsModel {
        params: vec![GenericParamModel::Lifetime(20), GenericParamModel::Type(ident("T", 21))],
        fragment: 22,
        where_clause: 23,
    };
    let input = DeriveInputModel {
        ident: ident("G", 3),
        generics,
        data: DataModel::Enum(vec![unnamed_variant("V1", vec![path_type("T", PathArgumentsModel::Empty, 1)])]),
    };
    let tokens = build_from_variants_impl(input).ok().expect("an enum gets From impls");
    assert_eq!(
        show(&tokens),
        "impl $22 From < $1 > for G < $20 , T > { fn from ( value : $1 ) - > Self { Self : : V1 ( value ) } }"
    );
}

#[test]
fn test_from_variants_refuses_two_fields() {
    let input = DeriveInputModel {
        ident: ident("E", 3),
        generics: no_generics(),
        data: DataModel::Enum(vec![unnamed_variant(
            "V",
            vec![path_type("u8", PathArgumentsModel::Empty, 1), path_type("u8", PathArgumentsModel::Empty, 2)],
        )]),
    };
    let err = build_from_variants_impl(input).err().expect("two fields");
    assert_eq!(
        err.message(),
        "FromVariants requires all enum variants to either have a single unnamed data member, or be empty"
    );
    assert!(err.span() == SpanRef::Input(12));

    let err = build_from_variants_impl(struct_input("S", vec![])).err().expect("not an enum");
    assert_eq!(err.message(), "Can only derive `FromVariants` on enums");
}

#[test]
fn test_extractor_output_and_errors() {
    let input = DeriveInputModel {
        ident: ident("E", 3),
        generics: no_generics(),
        data: DataModel::Enum(vec![
            unnamed_variant("A", vec![path_type("u8", PathArgumentsModel::Empty, 1)]),
            VariantModel { ident: ident("B", 14), fields: FieldsModel::Unit, span: SpanRef::Input(15) },
        ]),
    };
    let tokens = build_extractor(input).ok().expect("supported variants");
    assert_eq!(show(&tokens), "impl $ enum_name { }");

    let named = DeriveInputModel {
        ident: ident("E", 3),
        generics: no_generics(),
        data: DataModel::Enum(vec![VariantModel {
            ident: ident("N", 16),
            fields: FieldsModel::Named { span: SpanRef::Input(17) },
            span: SpanRef::Input(18),
        }]),
    };
    let err = build_extractor(named).err().expect("named fields");
    assert_eq!(err.message(), "Can't use named fields with EnumExtract");
    assert!(err.span() == SpanRef::Input(18));

    let err = build_extractor(struct_input("S", vec![])).err().expect("not an enum");
    assert_eq!(err.message(), "\"EnumExtract\" may only be used on enums");
}

#[test]
fn test_strip_trait_bounds() {
    let generics = GenericsModel {
        params: vec![
            GenericParamModel::Lifetime(1),
            GenericParamModel::Type(ident("T", 2)),
            GenericParamModel::Const(ident("N", 3)),
        ],
        fragment: 4,
        where_clause: 5,
    };
    assert_eq!(show(&generics.strip_trait_bounds()), "< $1 , T , N >");
    assert!(no_generics().strip_trait_bounds().is_empty());
}

#[test]
fn test_collect_tokens() {
    let streams = vec![vec![Token::Splice(1)], vec![], vec![Token::Splice(2), Token::Splice(3)]];
    assert_eq!(show(&streams.into_iter().collect_tokens()), "$1 $2 $3");

    let ok: Vec<Result<Vec<Token>, u8>> = vec![Ok(vec![Token::Splice(1)]), Ok(vec![Token::Splice(2)])];
    assert_eq!(show(&ok.into_iter().try_collect_tokens().ok().unwrap()), "$1 $2");

    let failing: Vec<Result<Vec<Token>, u8>> = vec![Ok(vec![Token::Splice(1)]), Err(7), Err(8)];
    assert_eq!(failing.into_iter().try_collect_tokens().err(), Some(7));
}
