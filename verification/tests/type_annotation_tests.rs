//! The type-annotation subsystem: lexer, parser, type values, origins.

use phplint::ConcreteType;
use phplint::PType;
use phplint::ScalarType;
use phplint::TypeDefinition;
use phplint::TypeLexItem;
use phplint::TypeOrigin;
use phplint::clone_type_definition;
use phplint::TypeParser;

fn scalar_def(s: ScalarType) -> TypeDefinition {
    TypeDefinition {
        types: vec![ConcreteType {
            nullable: false,
            ptype: PType::Scalar(s),
        }],
    }
}

fn nullable_scalar_def(s: ScalarType) -> TypeDefinition {
    TypeDefinition {
        types: vec![ConcreteType {
            nullable: true,
            ptype: PType::Scalar(s),
        }],
    }
}

#[test]
fn lex_nullable_scalar() {
    let items = TypeLexItem::lex(&"?int".to_string()).unwrap();
    assert_eq!(
        items,
        vec![
            TypeLexItem::Nullable,
            TypeLexItem::Symbol("int".to_string())
        ]
    );
}

#[test]
fn lex_shape_tokens() {
    let items = TypeLexItem::lex(&"array{a:int}".to_string()).unwrap();
    assert_eq!(
        items,
        vec![
            TypeLexItem::Symbol("array".to_string()),
            TypeLexItem::LeftCurlyBracket,
            TypeLexItem::Symbol("a".to_string()),
            TypeLexItem::Colon,
            TypeLexItem::Symbol("int".to_string()),
            TypeLexItem::RightCurlyBracket,
        ]
    );
}

#[test]
fn lex_namespace_and_generics() {
    let items = TypeLexItem::lex(&"A\\B<C,(D)>".to_string()).unwrap();
    assert_eq!(
        items,
        vec![
            TypeLexItem::Symbol("A".to_string()),
            TypeLexItem::NamespaceSeparator,
            TypeLexItem::Symbol("B".to_string()),
            TypeLexItem::StartGeneric,
            TypeLexItem::Symbol("C".to_string()),
            TypeLexItem::Comma,
            TypeLexItem::LeftParen,
            TypeLexItem::Symbol("D".to_string()),
            TypeLexItem::RightParen,
            TypeLexItem::EndGeneric,
        ]
    );
}

#[test]
fn lex_symbol_with_digits() {
    let items = TypeLexItem::lex(&"a1_b2".to_string()).unwrap();
    assert_eq!(items, vec![TypeLexItem::Symbol("a1_b2".to_string())]);
}

#[test]
fn lex_rejects_unknown_character() {
    let err = TypeLexItem::lex(&"a%b".to_string()).unwrap_err();
    assert_eq!(err, "unexpected character %");
}

#[test]
fn lex_rejects_leading_digit_at_boundary() {
    // a digit cannot start a token, only continue a symbol
    assert!(TypeLexItem::lex(&"1a".to_string()).is_err());
    assert!(TypeLexItem::lex(&"a1".to_string()).is_ok());
}

#[test]
fn parse_scalars() {
    let mut p = TypeParser::new();
    assert_eq!(
        p.parse_string("int".to_string()).unwrap().unwrap(),
        scalar_def(ScalarType::Int)
    );
    assert_eq!(
        p.parse_string("string".to_string()).unwrap().unwrap(),
        scalar_def(ScalarType::String)
    );
    assert_eq!(
        p.parse_string("float".to_string()).unwrap().unwrap(),
        scalar_def(ScalarType::Float)
    );
    assert_eq!(
        p.parse_string("bool".to_string()).unwrap().unwrap(),
        scalar_def(ScalarType::Bool)
    );
}

#[test]
fn parse_nullable_scalar() {
    let mut p = TypeParser::new();
    assert_eq!(
        p.parse_string("?string".to_string()).unwrap().unwrap(),
        nullable_scalar_def(ScalarType::String)
    );
}

#[test]
fn parse_plain_class() {
    let mut p = TypeParser::new();
    assert_eq!(
        p.parse_string("Foo".to_string()).unwrap().unwrap(),
        TypeDefinition {
            types: vec![ConcreteType {
                nullable: false,
                ptype: PType::Class("Foo".to_string(), "".to_string()),
            }],
        }
    );
}

#[test]
fn parse_namespaced_class() {
    let mut p = TypeParser::new();
    assert_eq!(
        p.parse_string("A\\B\\C".to_string()).unwrap().unwrap(),
        TypeDefinition {
            types: vec![ConcreteType {
                nullable: false,
                ptype: PType::Class("C".to_string(), "A\\B".to_string()),
            }],
        }
    );
}

#[test]
fn parse_nullable_class() {
    let mut p = TypeParser::new();
    assert_eq!(
        p.parse_string("?Foo".to_string()).unwrap().unwrap(),
        TypeDefinition {
            types: vec![ConcreteType {
                nullable: true,
                ptype: PType::Class("Foo".to_string(), "".to_string()),
            }],
        }
    );
}

#[test]
fn parse_shape() {
    let mut p = TypeParser::new();
    assert_eq!(
        p.parse_string("array{a:int,b:?bool}".to_string())
            .unwrap()
            .unwrap(),
        TypeDefinition {
            types: vec![ConcreteType {
                nullable: false,
                ptype: PType::Shape(vec![
                    ("a".to_string(), scalar_def(ScalarType::Int)),
                    ("b".to_string(), nullable_scalar_def(ScalarType::Bool)),
                ]),
            }],
        }
    );
}

#[test]
fn parse_shape_trailing_comma_and_empty() {
    let mut p = TypeParser::new();
    assert_eq!(
        p.parse_string("array{a:int,}".to_string()).unwrap().unwrap(),
        TypeDefinition {
            types: vec![ConcreteType {
                nullable: false,
                ptype: PType::Shape(vec![("a".to_string(), scalar_def(ScalarType::Int))]),
            }],
        }
    );
    assert_eq!(
        p.parse_string("array{}".to_string()).unwrap().unwrap(),
        TypeDefinition {
            types: vec![ConcreteType {
                nullable: false,
                ptype: PType::Shape(vec![]),
            }],
        }
    );
}

#[test]
fn parse_shape_duplicate_key_keeps_last_value() {
    let mut p = TypeParser::new();
    assert_eq!(
        p.parse_string("array{a:int,a:string}".to_string())
            .unwrap()
            .unwrap(),
        TypeDefinition {
            types: vec![ConcreteType {
                nullable: false,
                ptype: PType::Shape(vec![("a".to_string(), scalar_def(ScalarType::String))]),
            }],
        }
    );
}

#[test]
fn parse_nested_shape() {
    let mut p = TypeParser::new();
    assert_eq!(
        p.parse_string("array{a:array{b:int}}".to_string())
            .unwrap()
            .unwrap(),
        TypeDefinition {
            types: vec![ConcreteType {
                nullable: false,
                ptype: PType::Shape(vec![(
                    "a".to_string(),
                    TypeDefinition {
                        types: vec![ConcreteType {
                            nullable: false,
                            ptype: PType::Shape(vec![(
                                "b".to_string(),
                                scalar_def(ScalarType::Int)
                            )]),
                        }],
                    }
                )]),
            }],
        }
    );
}

#[test]
fn parse_rejects_malformed_annotations() {
    let mut p = TypeParser::new();
    assert!(p.parse_string("".to_string()).is_err());
    assert!(p.parse_string("??int".to_string()).is_err());
    assert!(p.parse_string("array<int>".to_string()).is_err());
    assert!(p.parse_string("Foo,Bar".to_string()).is_err());
    // a class path must run to the end of the tokens, so a class-valued
    // shape entry stops at the closing brace
    assert!(p.parse_string("array{a:Foo}".to_string()).is_err());
    assert!(p.parse_string("A\\".to_string()).is_err());
    assert!(p.parse_string("{a:int}".to_string()).is_err());
}

#[test]
fn parse_ignores_trailing_tokens_after_scalar() {
    let mut p = TypeParser::new();
    assert_eq!(
        p.parse_string("int:bool".to_string()).unwrap().unwrap(),
        scalar_def(ScalarType::Int)
    );
    // whitespace is no token: the lexer rejects it outright
    assert!(p.parse_string("int int".to_string()).is_err());
}

#[test]
fn scalar_conversions() {
    assert_eq!(ScalarType::Int.as_ptype(), PType::Scalar(ScalarType::Int));
    assert_eq!(ScalarType::Bool.as_def(), scalar_def(ScalarType::Bool));
    assert_eq!(PType::Null.as_def().types.len(), 1);
}

#[test]
fn type_definition_extend_unions_members() {
    let mut a = scalar_def(ScalarType::Int);
    let b = scalar_def(ScalarType::String);
    let merged = a.extend(&b);
    assert_eq!(merged, a);
    assert_eq!(a.types.len(), 2);
    assert_eq!(a.types[0].ptype, PType::Scalar(ScalarType::Int));
    assert_eq!(a.types[1].ptype, PType::Scalar(ScalarType::String));
    // other is unchanged
    assert_eq!(b, scalar_def(ScalarType::String));
}

#[test]
fn type_definition_extend_is_duplicate_free_and_idempotent() {
    let mut a = scalar_def(ScalarType::Int);
    a.extend(&scalar_def(ScalarType::Int));
    assert_eq!(a, scalar_def(ScalarType::Int));
    let mut union = scalar_def(ScalarType::Int);
    union.extend(&scalar_def(ScalarType::String));
    let snapshot = phplint::clone_type_definition(&union);
    // a second extension with the same members changes nothing
    union.extend(&scalar_def(ScalarType::String));
    union.extend(&snapshot);
    assert_eq!(union, snapshot);
}

#[test]
fn structural_equality_is_deep() {
    let mut p = TypeParser::new();
    let a = p.parse_string("array{a:int,b:?bool}".to_string()).unwrap().unwrap();
    let b = p.parse_string("array{a:int,b:?bool}".to_string()).unwrap().unwrap();
    let c = p.parse_string("array{a:int,b:bool}".to_string()).unwrap().unwrap();
    assert!(phplint::type_definition_eq(&a, &b));
    assert!(!phplint::type_definition_eq(&a, &c));
    assert!(phplint::ptype_eq(&PType::Null, &PType::Null));
    assert!(!phplint::ptype_eq(&PType::Null, &PType::Void));
}

#[test]
fn as_scalar_singletons_and_unions() {
    assert_eq!(
        scalar_def(ScalarType::Bool).as_scalar(),
        Some(ScalarType::Bool)
    );
    let mut int_string = scalar_def(ScalarType::Int);
    int_string.extend(&scalar_def(ScalarType::String));
    assert_eq!(int_string.as_scalar(), Some(ScalarType::ArrayKey));
    let mut int_float = scalar_def(ScalarType::Int);
    int_float.extend(&scalar_def(ScalarType::Float));
    assert_eq!(int_float.as_scalar(), Some(ScalarType::Num));
    let mut three = scalar_def(ScalarType::Int);
    three.extend(&scalar_def(ScalarType::String));
    three.extend(&scalar_def(ScalarType::Bool));
    assert_eq!(three.as_scalar(), None);
    let mut p = TypeParser::new();
    let class_def = p.parse_string("Foo".to_string()).unwrap().unwrap();
    assert_eq!(class_def.as_scalar(), None);
    assert_eq!(TypeDefinition::new().as_scalar(), None);
}

#[test]
fn as_scalar_ignores_duplicates() {
    // a hand-built member list may repeat a member; the collapse still
    // sees one distinct scalar
    let twice = TypeDefinition {
        types: vec![
            ConcreteType {
                nullable: false,
                ptype: PType::Scalar(ScalarType::Int),
            },
            ConcreteType {
                nullable: false,
                ptype: PType::Scalar(ScalarType::Int),
            },
        ],
    };
    assert_eq!(twice.as_scalar(), Some(ScalarType::Int));
}

#[test]
fn as_nullable_marks_every_member() {
    let mut d = scalar_def(ScalarType::Int);
    d.extend(&scalar_def(ScalarType::String));
    let n = d.as_nullable();
    assert_eq!(n.types.len(), 2);
    assert!(n.types.iter().all(|t| t.nullable));
}

#[test]
fn as_nullable_collapses_members_that_become_equal() {
    // Int and ?Int both become ?Int, which is kept once
    let mut d = scalar_def(ScalarType::Int);
    d.extend(&nullable_scalar_def(ScalarType::Int));
    assert_eq!(d.types.len(), 2);
    let n = d.as_nullable();
    assert_eq!(n, nullable_scalar_def(ScalarType::Int));
}

#[test]
fn origin_extend_keeps_strongest_provenance() {
    let int_def = scalar_def(ScalarType::Int);
    let string_def = scalar_def(ScalarType::String);
    let mut declared = TypeOrigin::Declared(clone_type_definition(&int_def));
    let combined = declared.extend(&TypeOrigin::Inferred(clone_type_definition(&string_def)));
    let mut expected_def = scalar_def(ScalarType::Int);
    expected_def.extend(&scalar_def(ScalarType::String));
    assert_eq!(combined, TypeOrigin::Inferred(expected_def));

    let mut implicit = TypeOrigin::Implicit(clone_type_definition(&int_def));
    let combined2 = implicit.extend(&TypeOrigin::Declared(clone_type_definition(&string_def)));
    let mut expected2 = scalar_def(ScalarType::Int);
    expected2.extend(&scalar_def(ScalarType::String));
    assert_eq!(combined2, TypeOrigin::Declared(expected2));

    let mut implicit2 = TypeOrigin::Implicit(clone_type_definition(&int_def));
    let combined3 = implicit2.extend(&TypeOrigin::Implicit(clone_type_definition(&string_def)));
    let mut expected3 = scalar_def(ScalarType::Int);
    expected3.extend(&scalar_def(ScalarType::String));
    assert_eq!(combined3, TypeOrigin::Implicit(expected3));
}

#[test]
fn origin_reduce_of_empty_is_unknown() {
    assert_eq!(TypeOrigin::reduce(vec![]), TypeOrigin::Unknown());
    assert_eq!(
        TypeOrigin::Unknown(),
        TypeOrigin::Inferred(PType::Unknown.as_def())
    );
}

#[test]
fn origin_reduce_folds_left_to_right() {
    let list = vec![
        TypeOrigin::Implicit(scalar_def(ScalarType::Int)),
        TypeOrigin::Declared(scalar_def(ScalarType::String)),
    ];
    let mut expected_def = scalar_def(ScalarType::Int);
    expected_def.extend(&scalar_def(ScalarType::String));
    assert_eq!(TypeOrigin::reduce(list), TypeOrigin::Declared(expected_def));
}

#[test]
fn origin_merge_and_as_def() {
    let a = TypeOrigin::Declared(scalar_def(ScalarType::Int));
    let b = TypeOrigin::Implicit(scalar_def(ScalarType::String));
    let merged = TypeOrigin::merge(&a, &b);
    let mut expected_def = scalar_def(ScalarType::Int);
    expected_def.extend(&scalar_def(ScalarType::String));
    assert_eq!(merged.as_def(), expected_def);
    assert_eq!(a.as_def(), scalar_def(ScalarType::Int));
}

#[test]
fn definition_to_origin_conversions() {
    let d = scalar_def(ScalarType::Int);
    assert_eq!(d.as_declared(), TypeOrigin::Declared(scalar_def(ScalarType::Int)));
    assert_eq!(d.as_inferred(), TypeOrigin::Inferred(scalar_def(ScalarType::Int)));
    assert_eq!(d.as_implicit(), TypeOrigin::Implicit(scalar_def(ScalarType::Int)));
}
