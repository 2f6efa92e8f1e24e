use mproto::ast::{
    Enum, EnumVariant, NamedField, PrimitiveType, QualifiedIdentifier, Struct, Type, TypeBody,
    TypeDef, TypeDefId,
};
use mproto::codegen::name_util::{
    camel_to_kebab_case, camel_to_snake_case, snake_to_camel_case, snake_to_upper_camel_case,
};
use mproto::codegen::lang::{
    import_qualified, js_import_qualified, rust_import_qualified, ImportSource, Target,
    UnknownModule,
};
use mproto::codegen::rust::common::{
    enum_contains_float, enum_owned_traits, enum_requires_heap, lazy_enum_requires_lifetime,
    lazy_type_requires_lifetime, struct_contains_float, struct_owned_traits,
    struct_requires_heap, type_needs, type_requires_heap, variants_need, fields_need, FloatLeaf,
    OwnedTraits, Question, TypeWalker,
};
use mproto::codegen::rust::rust_struct::{
    generic_bound, generic_param_name, struct_bound, StructBound,
};
use mproto::codegen::type_base_len::{
    enum_base_len, enum_variant_base_len, field_offsets, struct_base_len, type_base_len,
    LayoutError, LenForm, LenTokens, TypeBaseLen,
};
use mproto::codegen::{type_uses_param, type_uses_type_param, CodegenCx, ResolvedType, TypeParamBindings};
use mproto::db::{Database, Module};
use mproto::parse::{
    box_ty, builtin_ty, defined_ty, enum_def, list_ty, option_ty, parse_schema, result_ty, root,
    strip_comments, struct_def, ty, type_args_list, type_def, type_params_list, Parsed,
};

#[test]
fn test_builtin_u8() {
    let data = "u8";
    let (_, parsed) = builtin_ty(data).unwrap();

    assert_eq!(parsed, PrimitiveType::U8);
}

#[test]
fn test_list_u8() {
    let data = "[u8]";
    let (_, parsed) = list_ty(data).unwrap();

    assert_eq!(
        parsed,
        PrimitiveType::List(Box::new(Type::Primitive(PrimitiveType::U8))),
    );
}

#[test]
fn test_box_u8() {
    let data = "box<u8>";
    let (_, parsed) = box_ty(data).unwrap();

    assert_eq!(
        parsed,
        PrimitiveType::Box(Box::new(Type::Primitive(PrimitiveType::U8))),
    );
}

#[test]
fn test_option_u8() {
    let data = "option<u8>";
    let (_, parsed) = option_ty(data).unwrap();

    assert_eq!(
        parsed,
        PrimitiveType::Option(Box::new(Type::Primitive(PrimitiveType::U8))),
    );
}

#[test]
fn parse_test_result() {
    let data = "result<void, string>";
    let (_, parsed) = result_ty(data).unwrap();

    assert_eq!(
        parsed,
        PrimitiveType::Result(
            Box::new(Type::Primitive(PrimitiveType::Void)),
            Box::new(Type::Primitive(PrimitiveType::String)),
        ),
    );
}

#[test]
fn test_struct_named_fields() {
    let data = "struct Foo { bar : u32, baz : i8 }";
    let (_, parsed) = struct_def(data).unwrap();

    assert_eq!(
        parsed,
        TypeDef {
            name: "Foo".into(),
            params: vec![],
            body: TypeBody::Struct(Struct {
                fields: vec![
                    NamedField {
                        name: "bar".into(),
                        ty: Type::Primitive(PrimitiveType::U32)
                    },
                    NamedField {
                        name: "baz".into(),
                        ty: Type::Primitive(PrimitiveType::I8)
                    },
                ]
            }),
        }
    );
}

#[test]
fn test_struct_type_param() {
    let data = "struct Foo <T, F>  { bar : u32, baz : i8 }";
    let (_, parsed) = struct_def(data).unwrap();

    assert_eq!(
        parsed,
        TypeDef {
            name: "Foo".into(),
            params: vec!["T".into(), "F".into()],
            body: TypeBody::Struct(Struct {
                fields: vec![
                    NamedField {
                        name: "bar".into(),
                        ty: Type::Primitive(PrimitiveType::U32)
                    },
                    NamedField {
                        name: "baz".into(),
                        ty: Type::Primitive(PrimitiveType::I8)
                    },
                ]
            }),
        }
    );
}

#[test]
fn test_defined_type() {
    let data = "struct Foo { bar : bar_proto.Bar, baz : i8 }";
    let (_, parsed) = struct_def(data).unwrap();

    assert_eq!(
        parsed,
        TypeDef {
            name: "Foo".into(),
            params: vec![],
            body: TypeBody::Struct(Struct {
                fields: vec![
                    NamedField {
                        name: "bar".into(),
                        ty: Type::Defined {
                            ident: QualifiedIdentifier {
                                module: Some("bar_proto".into()),
                                name: "Bar".into(),
                            },
                            args: vec![],
                        },
                    },
                    NamedField {
                        name: "baz".into(),
                        ty: Type::Primitive(PrimitiveType::I8)
                    },
                ]
            }),
        }
    );
}

#[test]
fn test_enum_named_fields() {
    let data = "enum Foo { Bar { x: u32, y: u8 }, Baz { bip: i8 } }";
    let (_, parsed) = enum_def(data).unwrap();

    assert_eq!(
        parsed,
        TypeDef {
            name: "Foo".into(),
            params: vec![],
            body: TypeBody::Enum(Enum {
                variants: vec![
                    (
                        "Bar".into(),
                        EnumVariant::NamedFields {
                            fields: vec![
                                NamedField {
                                    name: "x".into(),
                                    ty: Type::Primitive(PrimitiveType::U32)
                                },
                                NamedField {
                                    name: "y".into(),
                                    ty: Type::Primitive(PrimitiveType::U8)
                                },
                            ],
                        }
                    ),
                    (
                        "Baz".into(),
                        EnumVariant::NamedFields {
                            fields: vec![NamedField {
                                name: "bip".into(),
                                ty: Type::Primitive(PrimitiveType::I8)
                            },],
                        }
                    ),
                ]
            }),
        }
    );
}

#[test]
fn test_type_base_len_nested_type_param() {
    let s = "struct Foo<T> { foo: Bar<T> }\nstruct Bar<T> { foo: Baz<T>, x: u8 }\nstruct Baz<T> { foo: T, y: u32 }\n";

    let (_, type_defs) = root(s).unwrap();
    assert_eq!(type_defs.len(), 3);

    let local_module = Module::from_type_defs(type_defs);
    let db = Database::new(local_module);

    let params = vec!["X".to_string()];
    let foo_base_len = type_base_len(
        &CodegenCx::new_with_type_params(&db, None, false, &params),
        &Type::Defined {
            ident: QualifiedIdentifier::local("Foo"),
            args: vec![Type::Primitive(PrimitiveType::U64)],
        },
    );

    assert_eq!(foo_base_len, Ok(TypeBaseLen::constant(8 + 1 + 4)));
}

fn schema(text: &str) -> Database {
    let defs = parse_schema(text).unwrap();
    Database::new(Module::from_type_defs(defs))
}

fn type_of(text: &str) -> Type {
    let (used, parsed) = ty(text).unwrap();
    assert_eq!(used, text.len());
    parsed
}

fn body_of<'a>(db: &'a Database, name: &str) -> &'a TypeBody {
    &db.local().type_def_by_name(name).unwrap().body
}

fn struct_of<'a>(db: &'a Database, name: &str) -> &'a Struct {
    match body_of(db, name) {
        TypeBody::Struct(s) => s,
        _ => panic!("{name} is no struct"),
    }
}

fn enum_of<'a>(db: &'a Database, name: &str) -> &'a Enum {
    match body_of(db, name) {
        TypeBody::Enum(e) => e,
        _ => panic!("{name} is no enum"),
    }
}

#[test]
fn primitive_base_lengths() {
    let db = schema("");
    let cx = CodegenCx::new(&db, None, false);
    let table = [
        ("void", 0),
        ("bool", 1),
        ("u8", 1),
        ("i8", 1),
        ("u16", 2),
        ("i16", 2),
        ("u32", 4),
        ("i32", 4),
        ("u64", 8),
        ("i64", 8),
        ("u128", 16),
        ("i128", 16),
        ("f32", 4),
        ("f64", 8),
        ("string", 8),
        ("box<u64>", 4),
        ("[u64]", 8),
        ("option<u32>", 5),
        ("option<option<u8>>", 3),
    ];
    for (text, len) in table {
        assert_eq!(type_base_len(&cx, &type_of(text)), Ok(TypeBaseLen::constant(len)), "{text}");
    }
}

#[test]
fn result_base_length_is_a_tag_and_the_larger_payload() {
    let db = schema("");
    let cx = CodegenCx::new(&db, None, false);
    let len = type_base_len(&cx, &type_of("result<u8, i16>")).unwrap();
    assert_eq!(len.constant, 1);
    assert_eq!(
        len.tokens,
        LenTokens::Max(Box::new(TypeBaseLen::constant(1)), Box::new(TypeBaseLen::constant(2))),
    );
    assert_eq!(len.as_tokens(), LenForm::Sum(1, &len.tokens));
}

#[test]
fn struct_base_length_is_the_sum_of_its_fields() {
    let db = schema("struct P { a: u8, b: u32, c: string, d: option<u16> }");
    let cx = CodegenCx::new(&db, None, false);
    assert_eq!(struct_base_len(&cx, struct_of(&db, "P")), Ok(TypeBaseLen::constant(1 + 4 + 8 + 3)));
    assert_eq!(type_base_len(&cx, &Type::local("P")), Ok(TypeBaseLen::constant(16)));
}

#[test]
fn enum_base_length_is_a_tag_and_the_largest_variant() {
    let db = schema("enum E { A, B { x: u32, y: u8 }, C { z: u16 } }");
    let cx = CodegenCx::new(&db, None, false);
    let e = enum_of(&db, "E");
    assert_eq!(enum_variant_base_len(&cx, &e.variants[0].1), Ok(TypeBaseLen::constant(0)));
    assert_eq!(enum_variant_base_len(&cx, &e.variants[1].1), Ok(TypeBaseLen::constant(5)));
    assert_eq!(enum_variant_base_len(&cx, &e.variants[2].1), Ok(TypeBaseLen::constant(2)));
    let len = enum_base_len(&cx, e).unwrap();
    assert_eq!(len.constant, 1);
    let inner = TypeBaseLen::tokens(LenTokens::Max(
        Box::new(TypeBaseLen::constant(0)),
        Box::new(TypeBaseLen::constant(0)),
    ));
    let middle = TypeBaseLen::tokens(LenTokens::Max(
        Box::new(inner),
        Box::new(TypeBaseLen::constant(5)),
    ));
    assert_eq!(
        len.tokens,
        LenTokens::Max(Box::new(middle), Box::new(TypeBaseLen::constant(2))),
    );
}

#[test]
fn unbound_parameter_gives_a_term_of_its_name() {
    let db = schema("struct W<T> { a: u16, b: T, c: T }");
    let def = db.local().type_def_by_name("W").unwrap();
    let cx = CodegenCx::new_with_type_params(&db, None, false, &def.params);
    let len = struct_base_len(&cx, struct_of(&db, "W")).unwrap();
    assert_eq!(len.constant, 2);
    assert_eq!(
        len.tokens,
        LenTokens::Sum(
            Box::new(LenTokens::Param("T".into())),
            Box::new(LenTokens::Param("T".into())),
        ),
    );
    let params_only = schema("struct V<T> { b: T }");
    let def = params_only.local().type_def_by_name("V").unwrap();
    let cx = CodegenCx::new_with_type_params(&params_only, None, false, &def.params);
    let len = struct_base_len(&cx, struct_of(&params_only, "V")).unwrap();
    assert_eq!(len.as_tokens(), LenForm::Tokens(&LenTokens::Param("T".into())));
    assert_eq!(TypeBaseLen::constant(7).as_tokens(), LenForm::Constant(7));
}

#[test]
fn layout_errors() {
    let db = schema("struct A { a: Missing }\nstruct R { r: R }\nstruct L { next: option<box<L>> }");
    let cx = CodegenCx::new(&db, None, false);
    assert_eq!(
        type_base_len(&cx, &Type::local("A")),
        Err(LayoutError::Unresolved(QualifiedIdentifier::local("Missing"))),
    );
    assert_eq!(type_base_len(&cx, &Type::local("R")), Err(LayoutError::TooDeep));
    assert_eq!(type_base_len(&cx, &Type::local("L")), Ok(TypeBaseLen::constant(5)));
    let huge = TypeBaseLen::constant(usize::MAX);
    assert_eq!(huge.checked_merge(TypeBaseLen::constant(1)), Err(LayoutError::TooLarge));
    assert_eq!(
        TypeBaseLen::constant(3).merge(TypeBaseLen::constant(4)),
        TypeBaseLen::constant(7),
    );
}

#[test]
fn heap_lifetime_and_float() {
    let db = schema(
        "struct Plain { a: u8, b: option<u16> }\n\
         struct Text { a: u8, s: string }\n\
         struct Holds { p: Plain, t: Text }\n\
         struct Floaty { p: Plain, f: [f32] }\n\
         struct Double { d: result<u8, f64> }\n\
         struct Loop { next: option<box<Loop>> }\n\
         enum Small { A, B { x: u8 } }\n\
         enum Big { A, B { x: [u8] } }\n\
         struct Gen<T> { t: T }\n",
    );
    assert_eq!(struct_requires_heap(&db, struct_of(&db, "Plain")), Ok(false));
    assert_eq!(struct_requires_heap(&db, struct_of(&db, "Text")), Ok(true));
    assert_eq!(struct_requires_heap(&db, struct_of(&db, "Holds")), Ok(true));
    assert_eq!(struct_requires_heap(&db, struct_of(&db, "Gen")), Ok(false));
    assert_eq!(enum_requires_heap(&db, enum_of(&db, "Small")), Ok(false));
    assert_eq!(enum_requires_heap(&db, enum_of(&db, "Big")), Ok(true));
    assert_eq!(type_requires_heap(&db, &type_of("option<Small>")), Ok(false));
    assert_eq!(type_requires_heap(&db, &type_of("result<u8, string>")), Ok(true));
    assert_eq!(type_requires_heap(&db, &type_of("box<u8>")), Ok(true));
    assert_eq!(
        type_requires_heap(&db, &type_of("other.Thing")),
        Err(LayoutError::Unresolved(QualifiedIdentifier {
            name: "Thing".into(),
            module: Some("other".into()),
        })),
    );

    assert_eq!(lazy_type_requires_lifetime(&db, &type_of("u32")), Ok(false));
    assert_eq!(lazy_type_requires_lifetime(&db, &type_of("string")), Ok(true));
    assert_eq!(lazy_type_requires_lifetime(&db, &type_of("Plain")), Ok(true));
    assert_eq!(lazy_type_requires_lifetime(&db, &type_of("Small")), Ok(false));
    assert_eq!(lazy_type_requires_lifetime(&db, &type_of("Big")), Ok(true));
    assert_eq!(lazy_type_requires_lifetime(&db, &type_of("T")), Ok(true));
    assert_eq!(lazy_enum_requires_lifetime(&db, enum_of(&db, "Small")), Ok(false));
    assert_eq!(lazy_enum_requires_lifetime(&db, enum_of(&db, "Big")), Ok(true));

    assert_eq!(struct_contains_float(&db, struct_of(&db, "Plain")), Ok(false));
    assert_eq!(struct_contains_float(&db, struct_of(&db, "Floaty")), Ok(true));
    assert_eq!(struct_contains_float(&db, struct_of(&db, "Double")), Ok(true));
    assert_eq!(struct_contains_float(&db, struct_of(&db, "Loop")), Ok(false));
    assert_eq!(enum_contains_float(&db, enum_of(&db, "Big")), Ok(false));
    let mut walker = TypeWalker::new();
    assert_eq!(walker.walk_type(&db, &type_of("[option<f32>]"), &FloatLeaf), Ok(true));
    assert_eq!(walker.walk_type(&db, &type_of("Floaty"), &FloatLeaf), Ok(true));
    assert_eq!(walker.walk_type(&db, &type_of("Floaty"), &FloatLeaf), Ok(false));
}

#[test]
fn parameter_use() {
    let db = schema("struct Bar<T> { t: T }\nstruct Foo<T, U> { x: Bar<T>, y: u8 }");
    let def = db.local().type_def_by_name("Foo").unwrap();
    let cx = CodegenCx::new_with_type_params(&db, None, false, &def.params);
    assert_eq!(type_uses_param(&cx, &type_of("Bar<T>"), "T").unwrap(), true);
    assert_eq!(type_uses_param(&cx, &type_of("Bar<T>"), "U").unwrap(), false);
    assert_eq!(type_uses_param(&cx, &type_of("result<u8, [U]>"), "U").unwrap(), true);
    assert_eq!(type_uses_param(&cx, &type_of("u8"), "T").unwrap(), false);
    assert_eq!(type_uses_type_param(&cx, &type_of("Bar<u8>")).unwrap(), false);
    assert_eq!(type_uses_type_param(&cx, &type_of("option<box<U>>")).unwrap(), true);
    let missing = type_uses_type_param(&cx, &type_of("Nope<T>")).unwrap_err();
    assert_eq!(missing.ident, QualifiedIdentifier::local("Nope"));

    assert!(matches!(cx.resolve_type(&QualifiedIdentifier::local("T")), Some(ResolvedType::UnboundParam)));
    assert!(matches!(cx.resolve_type(&QualifiedIdentifier::local("Bar")), Some(ResolvedType::Defined(_))));
    assert!(cx.resolve_type(&QualifiedIdentifier::local("Zed")).is_none());
    let args = vec![type_of("u64"), type_of("T")];
    let inner = cx.with_type_args(&def.params, &args);
    assert!(matches!(
        inner.resolve_type(&QualifiedIdentifier::local("T")),
        Some(ResolvedType::BoundParam { value: Type::Primitive(PrimitiveType::U64), .. })
    ));
    assert_eq!(type_uses_type_param(&inner, &type_of("T")).unwrap(), false);
    assert!(TypeParamBindings::empty().resolve("T").is_none());
    assert!(cx.with_type_param_bindings(&TypeParamBindings::from_type_params(&def.params))
        .resolve_type_param_binding("U")
        .is_some());
    assert!(CodegenCx::new(&db, Some("defs"), true).with_type_params(&def.params).is_package);
}

#[test]
fn modules_and_database() {
    let mut module = Module::new();
    assert_eq!(module.type_defs().len(), 0);
    let first = TypeDef {
        name: "A".into(),
        params: vec![],
        body: TypeBody::Struct(Struct { fields: vec![] }),
    };
    let second = TypeDef {
        name: "A".into(),
        params: vec!["T".into()],
        body: TypeBody::Enum(Enum { variants: vec![] }),
    };
    assert_eq!(module.new_type_def(first.clone()), TypeDefId(0));
    assert_eq!(module.new_type_def(second.clone()), TypeDefId(1));
    assert_eq!(module.type_def(TypeDefId(0)), &first);
    assert_eq!(module.type_def_by_name("A"), Some(&second));
    assert_eq!(module.type_def_by_name("B"), None);
    assert!(first.body.is_struct() && !first.body.is_enum());
    assert!(second.body.is_enum() && !second.body.is_struct());

    let mut db = Database::new(Module::from_type_defs(vec![first.clone()]));
    db.add_module("other".to_string(), "proto".to_string(), module);
    assert_eq!(db.lookup_module_lib_suffix("other"), Some("proto"));
    assert_eq!(db.lookup_module_lib_suffix("none"), None);
    assert_eq!(db.lookup_type_def(&QualifiedIdentifier::local("A")), Some(&first));
    let qualified = QualifiedIdentifier { name: "A".into(), module: Some("other".into()) };
    assert_eq!(db.lookup_type_def(&qualified), Some(&second));
    let unknown = QualifiedIdentifier { name: "A".into(), module: Some("none".into()) };
    assert_eq!(db.lookup_type_def(&unknown), None);
    db.local_mut().new_type_def(second.clone());
    assert_eq!(db.local().type_def_by_name("A"), Some(&second));
    assert!(db.imported_module_mut("none").is_none());
    db.imported_module_mut("other").unwrap().new_type_def(TypeDef {
        name: "C".into(),
        params: vec![],
        body: TypeBody::Struct(Struct { fields: vec![] }),
    });
    let c = QualifiedIdentifier { name: "C".into(), module: Some("other".into()) };
    assert!(db.lookup_type_def(&c).is_some());
    db.add_module("other".to_string(), "again".to_string(), Module::new());
    assert_eq!(db.lookup_module_lib_suffix("other"), Some("again"));
    assert!(db.lookup_type_def(&c).is_none());
    assert_eq!(Type::local("Foo"), Type::Defined { ident: QualifiedIdentifier::local("Foo"), args: vec![] });
    assert_eq!(Type::local("Foo").clone(), Type::local("Foo"));
    assert_eq!(type_of("result<[a.B<u8>], c>").clone(), type_of("result<[a.B<u8>], c>"));
}

#[test]
fn names_change_case() {
    assert_eq!(camel_to_snake_case(""), "");
    assert_eq!(camel_to_snake_case("FooBar"), "foo_bar");
    assert_eq!(camel_to_snake_case("fooBar"), "foo_bar");
    assert_eq!(camel_to_snake_case("HTTPServer"), "http_server");
    assert_eq!(camel_to_snake_case("Foo_Bar"), "foo_bar");
    assert_eq!(camel_to_snake_case("T"), "t");
    assert_eq!(camel_to_snake_case("ABC"), "abc");
    assert_eq!(camel_to_snake_case("already_snake"), "already_snake");
    assert_eq!(camel_to_kebab_case("FooBarBaz"), "foo-bar-baz");
    assert_eq!(camel_to_kebab_case("a_b"), "a-b");
    assert_eq!(snake_to_camel_case("foo_bar"), "fooBar");
    assert_eq!(snake_to_camel_case("foo__bar_"), "fooBar");
    assert_eq!(snake_to_upper_camel_case("foo_bar"), "FooBar");
    assert_eq!(snake_to_upper_camel_case("x"), "X");
    assert_eq!(snake_to_upper_camel_case(""), "");
    assert_eq!(snake_to_upper_camel_case("\u{e9}t\u{e9}"), "\u{c9}t\u{e9}");
}

#[test]
fn types_parse() {
    assert_eq!(type_of("u128"), Type::Primitive(PrimitiveType::U128));
    assert_eq!(type_of("f64"), Type::Primitive(PrimitiveType::F64));
    assert_eq!(
        type_of("box < [ option<u8> ] >"),
        Type::Primitive(PrimitiveType::Box(Box::new(Type::Primitive(PrimitiveType::List(
            Box::new(Type::Primitive(PrimitiveType::Option(Box::new(Type::Primitive(
                PrimitiveType::U8
            ))))),
        ))))),
    );
    assert_eq!(
        type_of("result<u8 , i16 , >"),
        Type::Primitive(PrimitiveType::Result(
            Box::new(Type::Primitive(PrimitiveType::U8)),
            Box::new(Type::Primitive(PrimitiveType::I16)),
        )),
    );
    assert_eq!(
        type_of("m.Foo<u8, Bar<T>,>"),
        Type::Defined {
            ident: QualifiedIdentifier { name: "Foo".into(), module: Some("m".into()) },
            args: vec![
                Type::Primitive(PrimitiveType::U8),
                Type::Defined { ident: QualifiedIdentifier::local("Bar"), args: vec![Type::local("T")] },
            ],
        },
    );
    assert_eq!(type_of("boxes"), Type::local("boxes"));
    assert_eq!(type_of("Foo<>"), Type::local("Foo"));
    // a keyword is read wherever its letters stand
    let (used, parsed) = ty("boolean").unwrap();
    assert_eq!((used, parsed), (4, Type::Primitive(PrimitiveType::Bool)));
    // white space behind a name is read, an unfinished argument list is not
    let (used, parsed) = defined_ty("Foo  <u8").unwrap();
    assert_eq!((used, parsed), (5, Type::local("Foo")));
    assert!(matches!(ty("<"), Parsed::Error));
    assert!(matches!(ty(""), Parsed::Error));
    assert!(matches!(result_ty("result< u8, u8>"), Parsed::Error));
    assert!(matches!(box_ty("box<u8"), Parsed::Error));
    assert!(matches!(list_ty("[u8"), Parsed::Error));
    assert_eq!(type_args_list("<u8,u16> rest").unwrap().0, 8);
    assert_eq!(type_params_list("< A , B , >").unwrap().1, vec!["A".to_string(), "B".to_string()]);
    assert!(matches!(type_params_list("<A B>"), Parsed::Error));
}

#[test]
fn definitions_parse() {
    let (used, def) = type_def("enum E<T>{A,B{x:T,},C}").unwrap();
    assert_eq!(used, 22);
    assert_eq!(
        def,
        TypeDef {
            name: "E".into(),
            params: vec!["T".into()],
            body: TypeBody::Enum(Enum {
                variants: vec![
                    ("A".into(), EnumVariant::Empty),
                    (
                        "B".into(),
                        EnumVariant::NamedFields {
                            fields: vec![NamedField { name: "x".into(), ty: Type::local("T") }],
                        },
                    ),
                    ("C".into(), EnumVariant::Empty),
                ],
            }),
        },
    );
    assert!(matches!(type_def("struct S { a u8 }"), Parsed::Failure));
    assert!(matches!(type_def("struct S { a: u8 "), Parsed::Failure));
    assert!(matches!(type_def("struct S { a: u8 , }"), Parsed::Failure));
    assert!(type_def("struct S { a: u8, }").is_done());
    assert!(type_def("struct S {}").is_done());
    assert!(matches!(type_def("struct S"), Parsed::Error));
    assert!(matches!(type_def("union S {}"), Parsed::Error));
    assert!(matches!(type_def("enum E { A { x } }"), Parsed::Failure));
}

#[test]
fn files_parse() {
    let (used, defs) = root("struct A {}  \n enum B { X }\n???").unwrap();
    assert_eq!(defs.len(), 2);
    assert_eq!(used, 27);
    let (used, defs) = root(" struct A {}").unwrap();
    assert_eq!((used, defs.len()), (0, 0));
    assert!(matches!(root("struct A {} struct B { x: }"), Parsed::Failure));

    assert_eq!(strip_comments(b"a // c\r\nb\r\n"), b"a \nb\n");
    assert_eq!(strip_comments(b"a/b //x"), b"a/b \n");
    assert_eq!(strip_comments(b""), b"\n");
    assert_eq!(strip_comments(b"x\n\n"), b"x\n\n");
    let defs = parse_schema("struct A { // first\n  a: u8, // field\n}\n// done\nenum B { X }").unwrap();
    assert_eq!(defs.len(), 2);
    assert_eq!(defs[1].name, "B");
    let error = parse_schema("struct A { a: }").unwrap_err();
    assert_eq!(error.message(), "mproto schema parse error");
    assert_eq!(parse_schema("// only a comment\nstruct A {}").unwrap().len(), 0);
}

#[test]
fn imports_resolve() {
    use_imports();
}

fn rendered_rust(import: genco::lang::rust::Import) -> String {
    let mut tokens = genco::lang::rust::Tokens::new();
    tokens.append(import);
    tokens.to_file_string().unwrap()
}

fn rendered_js(import: genco::lang::js::Import) -> String {
    let mut tokens = genco::lang::js::Tokens::new();
    tokens.append(import);
    tokens.to_file_string().unwrap()
}

fn use_imports() {
    let mut db = schema("struct A {}");
    db.add_module("bar".to_string(), "proto".to_string(), Module::new());
    let remote = QualifiedIdentifier { name: "Bar".into(), module: Some("bar".into()) };
    let local = QualifiedIdentifier::local("A");
    let missing = QualifiedIdentifier { name: "Bar".into(), module: Some("baz".into()) };

    assert_eq!(
        import_qualified(&db, None, &remote, Target::Rust),
        Ok(ImportSource::Library("bar_proto".into())),
    );
    assert_eq!(
        import_qualified(&db, Some("defs"), &remote, Target::Js),
        Ok(ImportSource::Library("bar-proto".into())),
    );
    assert_eq!(import_qualified(&db, Some("defs"), &local, Target::Js), Ok(ImportSource::Local("defs".into())));
    assert_eq!(import_qualified(&db, None, &local, Target::Rust), Ok(ImportSource::Bare));
    assert_eq!(
        import_qualified(&db, None, &missing, Target::Rust),
        Err(UnknownModule { module: "baz".into() }),
    );

    let import = rust_import_qualified(&db, None, &remote).unwrap().unwrap();
    assert_eq!(import, genco::lang::rust::import("bar_proto", "Bar").qualified());
    assert_eq!(rendered_rust(import), "bar_proto::Bar\n");
    let import = rust_import_qualified(&db, Some("crate::defs"), &local).unwrap().unwrap();
    assert_eq!(import, genco::lang::rust::import("crate::defs", "A"));
    let text = rendered_rust(import);
    assert!(text.contains("use crate::defs::A;") && text.ends_with("A\n"), "{text}");
    assert_eq!(rust_import_qualified(&db, None, &local), Ok(None));
    assert!(rust_import_qualified(&db, None, &missing).is_err());

    let import = js_import_qualified(&db, None, &remote).unwrap().unwrap();
    assert_eq!(import, genco::lang::js::import("bar-proto", "Bar"));
    let text = rendered_js(import);
    assert!(text.contains("Bar") && text.contains("bar-proto") && text.contains("import"), "{text}");
    assert_eq!(js_import_qualified(&db, None, &local), Ok(None));
    assert_eq!(js_import_qualified(&db, None, &missing), Err(UnknownModule { module: "baz".into() }));
}

#[test]
fn generic_fields() {
    let db = schema("struct Thing {}\nstruct TThing {}\nstruct Foo<T> { thing: u8, other_one: Bar<T>, t: string }\nstruct Bar<T> { t: T }");
    assert_eq!(generic_param_name(&db, "", "other_one"), "OtherOne");
    assert_eq!(generic_param_name(&db, "", "thing"), "TTThing");
    assert_eq!(generic_param_name(&db, "Variant", "thing"), "VariantThing");
    let def = db.local().type_def_by_name("Foo").unwrap();
    let cx = CodegenCx::new_with_type_params(&db, None, false, &def.params);
    let fields = &struct_of(&db, "Foo").fields;
    assert_eq!(struct_bound(&cx, &fields[0]).unwrap(), StructBound::Concrete);
    assert_eq!(struct_bound(&cx, &fields[1]).unwrap(), StructBound::Encode);
    assert_eq!(struct_bound(&cx, &fields[2]).unwrap(), StructBound::Compatible);
    assert!(generic_bound(&type_of("[u8]")) && generic_bound(&type_of("A")));
    assert!(!generic_bound(&type_of("u64")) && !generic_bound(&type_of("void")));

    let offsets = field_offsets(&cx, fields).unwrap();
    assert_eq!(offsets.len(), 3);
    assert_eq!(offsets[0], TypeBaseLen::constant(0));
    assert_eq!(offsets[1], TypeBaseLen::constant(1));
    assert_eq!(offsets[2].constant, 1);
    assert_eq!(offsets[2].tokens, LenTokens::Param("T".into()));
    assert_eq!(offsets[2].clone(), offsets[2]);

    let traits = struct_owned_traits(&db, true, struct_of(&db, "Foo")).unwrap();
    assert_eq!(
        traits,
        OwnedTraits { heap_only: true, copy: false, total_order: true, default: false },
    );
    let traits = struct_owned_traits(&db, true, struct_of(&db, "Thing")).unwrap();
    assert_eq!(
        traits,
        OwnedTraits { heap_only: false, copy: true, total_order: true, default: true },
    );
    let floats = schema("enum E { A { f: f64 } }");
    assert_eq!(
        enum_owned_traits(&floats, false, enum_of(&floats, "E")).unwrap(),
        OwnedTraits { heap_only: false, copy: true, total_order: false, default: false },
    );
}

#[test]
fn heap_and_float_come_in_through_type_arguments() {
    let db = schema(
        "struct Foo<T> { x: T }\n\
         struct Bar<T> { y: Foo<T>, z: u8 }\n\
         struct Unused<T> { z: u8 }\n\
         enum Either<A, B> { Left { a: A }, Right { b: B } }\n\
         struct HoldsText { f: Foo<string> }\n\
         struct HoldsNumber { f: Bar<u64> }\n\
         struct HoldsFloat { f: Foo<f32> }\n\
         struct Generic<T> { f: Foo<T> }\n",
    );
    assert_eq!(type_requires_heap(&db, &type_of("Foo<string>")), Ok(true));
    assert_eq!(type_requires_heap(&db, &type_of("Foo<u8>")), Ok(false));
    assert_eq!(type_requires_heap(&db, &type_of("Bar<[u8]>")), Ok(true));
    assert_eq!(type_requires_heap(&db, &type_of("Bar<option<u8>>")), Ok(false));
    assert_eq!(type_requires_heap(&db, &type_of("Foo<Foo<box<u8>>>")), Ok(true));
    assert_eq!(type_requires_heap(&db, &type_of("Unused<string>")), Ok(false));
    assert_eq!(type_requires_heap(&db, &type_of("Either<u8, string>")), Ok(true));
    assert_eq!(type_requires_heap(&db, &type_of("Either<u8, u16>")), Ok(false));
    assert_eq!(type_requires_heap(&db, &type_of("Foo<Missing>")), Ok(false));
    assert_eq!(struct_requires_heap(&db, struct_of(&db, "HoldsText")), Ok(true));
    assert_eq!(struct_requires_heap(&db, struct_of(&db, "HoldsNumber")), Ok(false));
    assert_eq!(struct_requires_heap(&db, struct_of(&db, "Generic")), Ok(false));
    assert_eq!(enum_requires_heap(&db, enum_of(&db, "Either")), Ok(false));
    assert_eq!(
        struct_owned_traits(&db, true, struct_of(&db, "HoldsText")).unwrap(),
        OwnedTraits { heap_only: true, copy: false, total_order: true, default: false },
    );
    assert_eq!(
        struct_owned_traits(&db, true, struct_of(&db, "HoldsFloat")).unwrap(),
        OwnedTraits { heap_only: false, copy: true, total_order: false, default: false },
    );

    // the lazy form of a definition is declared once for all arguments
    assert_eq!(lazy_type_requires_lifetime(&db, &type_of("Either<u8, u16>")), Ok(true));
    assert_eq!(lazy_type_requires_lifetime(&db, &type_of("Foo<u8>")), Ok(true));
    assert_eq!(lazy_enum_requires_lifetime(&db, enum_of(&db, "Either")), Ok(true));

    assert_eq!(struct_contains_float(&db, struct_of(&db, "HoldsFloat")), Ok(true));
    assert_eq!(struct_contains_float(&db, struct_of(&db, "HoldsNumber")), Ok(false));
    assert_eq!(struct_contains_float(&db, struct_of(&db, "Generic")), Ok(false));
    let mut walker = TypeWalker::new();
    assert_eq!(walker.walk_type(&db, &type_of("Foo<u8>"), &FloatLeaf), Ok(false));
    assert_eq!(walker.walk_type(&db, &type_of("Foo<result<u8, f64>>"), &FloatLeaf), Ok(true));
    assert_eq!(walker.walk_type_within(&db, &type_of("Bar<f32>"), &FloatLeaf, 0), Ok(true));
    assert_eq!(
        walker.walk_type_within(&db, &type_of("Bar<u8>"), &FloatLeaf, 0),
        Err(LayoutError::TooDeep),
    );

    let cx = CodegenCx::new(&db, None, false);
    assert_eq!(type_needs(&cx, &type_of("Foo<string>"), Question::Heap, 1), Err(LayoutError::TooDeep));
    assert_eq!(type_needs(&cx, &type_of("Foo<string>"), Question::Heap, 2), Ok(true));
    assert_eq!(fields_need(&cx, &struct_of(&db, "HoldsText").fields, Question::Heap, 3), Ok(true));
    assert_eq!(variants_need(&cx, enum_of(&db, "Either"), Question::Lifetime, 0), Ok(true));
}
