#![allow(dead_code)]
use shape::{resolve, Complex, ContainerAttrs, EnumDef, FieldAttrs, Fields, Inflection, Literal,
    NamedField, Object, PosField, Property, ShapeOptions, StructDef, Tuple, Ty, Type, UnitOr,
    VariantAttrs, VariantDef};

fn shape_of(ty: &Ty, o: &ShapeOptions) -> Type {
    resolve(ty, o).unwrap()
}

fn field(name: &str, ty: Ty) -> NamedField {
    NamedField { name: String::from(name), attrs: FieldAttrs::default(), ty }
}

fn fielda(name: &str, ty: Ty, attrs: FieldAttrs) -> NamedField {
    NamedField { name: String::from(name), attrs, ty }
}

fn pf(ty: Ty) -> PosField {
    PosField { attrs: FieldAttrs::default(), ty }
}

fn nstruct(attrs: ContainerAttrs, fields: Vec<NamedField>) -> Ty {
    Ty::Struct(Box::new(StructDef { attrs, fields: Fields::Named(fields) }))
}

fn variant(name: &str, fields: Fields) -> VariantDef {
    VariantDef { name: String::from(name), attrs: VariantAttrs::default(), fields }
}

fn varianta(name: &str, attrs: VariantAttrs, fields: Fields) -> VariantDef {
    VariantDef { name: String::from(name), attrs, fields }
}

fn en(attrs: ContainerAttrs, variants: Vec<VariantDef>) -> Ty {
    Ty::Enum(Box::new(EnumDef { attrs, variants }))
}

fn prop(ty: Type) -> Property {
    Property { ty, optional: false, readonly: false }
}

fn oprop(ty: Type) -> Property {
    Property { ty, optional: true, readonly: false }
}

fn obj(props: Vec<(&str, Property)>) -> Type {
    Type::Object(Object {
        properties: props.into_iter().map(|(k, p)| (String::from(k), p)).collect(),
    })
}

fn lit(s: &str) -> Type {
    Type::Literal(Literal::String(String::from(s)))
}

fn untagged() -> ContainerAttrs {
    ContainerAttrs { untagged: Some(()), ..Default::default() }
}

fn tagged(tag: &str) -> ContainerAttrs {
    ContainerAttrs { tag: Some(String::from(tag)), ..Default::default() }
}

fn adjacent(tag: &str, content: &str) -> ContainerAttrs {
    ContainerAttrs {
        tag: Some(String::from(tag)),
        content: Some(String::from(content)),
        ..Default::default()
    }
}

#[test]
fn misc_simple_struct() {
    let ty = nstruct(
        ContainerAttrs::default(),
        vec![
            field("bool", Ty::Boolean),
            field("u8", Ty::Number),
            field("str", Ty::Wrapper(Box::new(Ty::String))),
        ],
    );

    let expected = obj(vec![
        ("bool", prop(Type::Boolean)),
        ("u8", prop(Type::Number)),
        ("str", prop(Type::String)),
    ]);

    assert_eq!(shape_of(&ty, &ShapeOptions::for_serialize()), expected);
    assert_eq!(shape_of(&ty, &ShapeOptions::for_deserialize()), expected);
}

#[test]
fn misc_struct_with_serde_attrs() {
    let nested_struct = nstruct(
        ContainerAttrs { rename_all: Some(Complex::Single(Inflection::Kebab)), ..Default::default() },
        vec![field("field_one", Ty::String), field("field_two", Ty::Number)],
    );

    let ty = nstruct(
        ContainerAttrs { rename_all: Some(Complex::Single(Inflection::Camel)), ..Default::default() },
        vec![
            field("first_field", Ty::String),
            fielda("skipped", Ty::Number, FieldAttrs { skip: Some(()), ..Default::default() }),
            fielda(
                "optional_value",
                Ty::Boolean,
                FieldAttrs {
                    rename: Some(Complex::Single(String::from("opt"))),
                    default: Some(UnitOr::Unit),
                    skip_serializing_if: Some(String::from("asd")),
                    ..Default::default()
                },
            ),
            field("nested_struct", nested_struct),
        ],
    );

    let expected = obj(vec![
        ("firstField", prop(Type::String)),
        ("opt", oprop(Type::Boolean)),
        (
            "nestedStruct",
            prop(obj(vec![
                ("field-one", prop(Type::String)),
                ("field-two", prop(Type::Number)),
            ])),
        ),
    ]);

    assert_eq!(shape_of(&ty, &ShapeOptions::for_serialize()), expected);
    assert_eq!(shape_of(&ty, &ShapeOptions::for_deserialize()), expected);
}

#[test]
fn misc_struct_with_flatten() {
    let flattened = nstruct(
        ContainerAttrs::default(),
        vec![field("nested_field", Ty::Number), field("another_field", Ty::Boolean)],
    );

    let ty = nstruct(
        ContainerAttrs::default(),
        vec![
            field("top_level", Ty::String),
            fielda("flattened", flattened, FieldAttrs { flatten: Some(()), ..Default::default() }),
        ],
    );

    let expected = Type::And(vec![
        obj(vec![("top_level", prop(Type::String))]),
        obj(vec![
            ("nested_field", prop(Type::Number)),
            ("another_field", prop(Type::Boolean)),
        ]),
    ]);

    assert_eq!(shape_of(&ty, &ShapeOptions::for_serialize()), expected);
    assert_eq!(shape_of(&ty, &ShapeOptions::for_deserialize()), expected);
}

#[test]
fn misc_newtype() {
    let number = Ty::Struct(Box::new(StructDef {
        attrs: ContainerAttrs::default(),
        fields: Fields::Unnamed(vec![pf(Ty::Number)]),
    }));

    assert_eq!(shape_of(&number, &ShapeOptions::for_serialize()), Type::Number);
    assert_eq!(shape_of(&number, &ShapeOptions::for_deserialize()), Type::Number);

    let str_wrap = Ty::Struct(Box::new(StructDef {
        attrs: ContainerAttrs::default(),
        fields: Fields::Unnamed(vec![pf(Ty::Wrapper(Box::new(Ty::String)))]),
    }));

    assert_eq!(shape_of(&str_wrap, &ShapeOptions::for_serialize()), Type::String);
    assert_eq!(shape_of(&str_wrap, &ShapeOptions::for_deserialize()), Type::String);
}

fn abcd_enum(attrs: ContainerAttrs) -> Ty {
    en(
        attrs,
        vec![
            variant("A", Fields::Unit),
            variant("B", Fields::Unnamed(vec![pf(Ty::Number)])),
            variant("C", Fields::Unnamed(vec![pf(Ty::Number), pf(Ty::Boolean)])),
            variant(
                "D",
                Fields::Named(vec![field("a", Ty::Number), field("b", Ty::String)]),
            ),
        ],
    )
}

#[test]
fn misc_enum_untagged() {
    let ty = en(
        untagged(),
        vec![
            variant("A", Fields::Unit),
            variant("B", Fields::Unnamed(vec![pf(Ty::Number)])),
            variant("C", Fields::Unnamed(vec![pf(Ty::Number), pf(Ty::String)])),
            variant("D", Fields::Named(vec![field("a", Ty::Number), field("b", Ty::String)])),
        ],
    );

    let expected = Type::Or(vec![
        Type::Null,
        Type::Number,
        Type::Tuple(Tuple { items: vec![Type::Number, Type::String], rest: None }),
        obj(vec![("a", prop(Type::Number)), ("b", prop(Type::String))]),
    ]);

    assert_eq!(shape_of(&ty, &ShapeOptions::for_serialize()), expected);
    assert_eq!(shape_of(&ty, &ShapeOptions::for_deserialize()), expected);
}

#[test]
fn misc_enum_internally_tagged() {
    let ty = abcd_enum(tagged("type"));

    let expected = Type::Or(vec![
        obj(vec![("type", prop(lit("A")))]),
        Type::And(vec![obj(vec![("type", prop(lit("B")))]), Type::Number]),
        Type::And(vec![
            obj(vec![("type", prop(lit("C")))]),
            Type::Tuple(Tuple { items: vec![Type::Number, Type::Boolean], rest: None }),
        ]),
        Type::And(vec![
            obj(vec![("type", prop(lit("D")))]),
            obj(vec![("a", prop(Type::Number)), ("b", prop(Type::String))]),
        ]),
    ]);

    assert_eq!(shape_of(&ty, &ShapeOptions::for_serialize()), expected);
    assert_eq!(shape_of(&ty, &ShapeOptions::for_deserialize()), expected);
}

#[test]
fn misc_enum_adjacently_tagged() {
    let ty = abcd_enum(adjacent("type", "content"));

    let expected = Type::Or(vec![
        obj(vec![("type", prop(lit("A")))]),
        obj(vec![("type", prop(lit("B"))), ("content", prop(Type::Number))]),
        obj(vec![
            ("type", prop(lit("C"))),
            (
                "content",
                prop(Type::Tuple(Tuple { items: vec![Type::Number, Type::Boolean], rest: None })),
            ),
        ]),
        obj(vec![
            ("type", prop(lit("D"))),
            ("content", prop(obj(vec![("a", prop(Type::Number)), ("b", prop(Type::String))]))),
        ]),
    ]);

    assert_eq!(shape_of(&ty, &ShapeOptions::for_serialize()), expected);
    assert_eq!(shape_of(&ty, &ShapeOptions::for_deserialize()), expected);
}

#[test]
fn misc_struct_with_rename() {
    let ty = nstruct(
        ContainerAttrs { rename_all: Some(Complex::Single(Inflection::Snake)), ..Default::default() },
        vec![field("originalField", Ty::String), field("anotherField", Ty::Number)],
    );

    let expected = obj(vec![
        ("original_field", prop(Type::String)),
        ("another_field", prop(Type::Number)),
    ]);

    assert_eq!(shape_of(&ty, &ShapeOptions::for_serialize()), expected);
    assert_eq!(shape_of(&ty, &ShapeOptions::for_deserialize()), expected);
}

#[test]
fn misc_struct_with_skip_serializing() {
    let ty = nstruct(
        ContainerAttrs::default(),
        vec![
            field("included", Ty::String),
            fielda("skipped", Ty::Number, FieldAttrs {
                skip_serializing: Some(()),
                ..Default::default()
            }),
        ],
    );

    let expected = obj(vec![("included", prop(Type::String))]);
    assert_eq!(shape_of(&ty, &ShapeOptions::for_serialize()), expected);
}

#[test]
fn misc_struct_with_skip_deserializing() {
    let ty = nstruct(
        ContainerAttrs::default(),
        vec![
            field("included", Ty::String),
            fielda("skipped", Ty::Number, FieldAttrs {
                skip_deserializing: Some(()),
                ..Default::default()
            }),
        ],
    );

    let expected = obj(vec![("included", prop(Type::String))]);
    assert_eq!(shape_of(&ty, &ShapeOptions::for_deserialize()), expected);
}

#[test]
fn misc_struct_with_default() {
    let ty = nstruct(
        ContainerAttrs::default(),
        vec![fielda("field_with_default", Ty::Number, FieldAttrs {
            default: Some(UnitOr::Unit),
            ..Default::default()
        })],
    );

    let expected_serialize = obj(vec![("field_with_default", prop(Type::Number))]);
    let expected_deserialize = obj(vec![("field_with_default", oprop(Type::Number))]);

    assert_eq!(shape_of(&ty, &ShapeOptions::for_serialize()), expected_serialize);
    assert_eq!(shape_of(&ty, &ShapeOptions::for_deserialize()), expected_deserialize);
}

#[test]
fn misc_struct_with_skip_serializing_if() {
    let ty = nstruct(
        ContainerAttrs::default(),
        vec![fielda("optional_field", Ty::String, FieldAttrs {
            skip_serializing_if: Some(String::from("something")),
            ..Default::default()
        })],
    );

    let expected = obj(vec![("optional_field", oprop(Type::String))]);
    assert_eq!(shape_of(&ty, &ShapeOptions::for_serialize()), expected);
}

#[test]
fn misc_struct_with_transparent() {
    let ty = nstruct(
        ContainerAttrs { transparent: Some(()), ..Default::default() },
        vec![field("value", Ty::String)],
    );

    assert_eq!(shape_of(&ty, &ShapeOptions::for_serialize()), Type::String);
    assert_eq!(shape_of(&ty, &ShapeOptions::for_deserialize()), Type::String);
}

#[test]
fn misc_enum_with_rename_all() {
    let ty = en(
        ContainerAttrs { rename_all: Some(Complex::Single(Inflection::Pascal)), ..Default::default() },
        vec![variant("VariantOne", Fields::Unit), variant("VariantTwo", Fields::Unit)],
    );

    let expected = Type::Or(vec![lit("VariantOne"), lit("VariantTwo")]);

    assert_eq!(shape_of(&ty, &ShapeOptions::for_serialize()), expected);
    assert_eq!(shape_of(&ty, &ShapeOptions::for_deserialize()), expected);
}

#[test]
fn misc_struct_with_skip_and_rename() {
    let ty = nstruct(
        ContainerAttrs::default(),
        vec![
            field("included", Ty::String),
            fielda("skipped", Ty::Number, FieldAttrs {
                skip: Some(()),
                rename: Some(Complex::Single(String::from("skipped_field"))),
                ..Default::default()
            }),
        ],
    );

    let expected = obj(vec![("included", prop(Type::String))]);
    assert_eq!(shape_of(&ty, &ShapeOptions::for_serialize()), expected);
    assert_eq!(shape_of(&ty, &ShapeOptions::for_deserialize()), expected);
}

#[test]
fn misc_enum_with_rename() {
    let ty = en(
        ContainerAttrs { rename_all: Some(Complex::Single(Inflection::Upper)), ..Default::default() },
        vec![variant("FirstVariant", Fields::Unit), variant("SecondVariant", Fields::Unit)],
    );

    let expected = Type::Or(vec![lit("FIRSTVARIANT"), lit("SECONDVARIANT")]);

    assert_eq!(shape_of(&ty, &ShapeOptions::for_serialize()), expected);
    assert_eq!(shape_of(&ty, &ShapeOptions::for_deserialize()), expected);
}

#[test]
fn misc_enum_with_skip_variant() {
    let ty = en(
        tagged("type"),
        vec![
            variant("Included", Fields::Unit),
            varianta("Skipped", VariantAttrs { skip: Some(()), ..Default::default() }, Fields::Unit),
        ],
    );

    let expected = Type::Or(vec![obj(vec![("type", prop(lit("Included")))])]);

    assert_eq!(shape_of(&ty, &ShapeOptions::for_serialize()), expected);
    assert_eq!(shape_of(&ty, &ShapeOptions::for_deserialize()), expected);
}

#[test]
fn misc_enum_with_skip_serializing_variant() {
    let ty = en(
        tagged("type"),
        vec![
            variant("AlwaysSerialized", Fields::Unit),
            varianta(
                "NeverSerialized",
                VariantAttrs { skip_serializing: Some(()), ..Default::default() },
                Fields::Unit,
            ),
        ],
    );

    let expected = Type::Or(vec![obj(vec![("type", prop(lit("AlwaysSerialized")))])]);
    assert_eq!(shape_of(&ty, &ShapeOptions::for_serialize()), expected);
}

#[test]
fn misc_enum_with_skip_deserializing_variant() {
    let ty = en(
        tagged("type"),
        vec![
            variant("AlwaysDeserialized", Fields::Unit),
            varianta(
                "NeverDeserialized",
                VariantAttrs { skip_deserializing: Some(()), ..Default::default() },
                Fields::Unit,
            ),
        ],
    );

    let expected = Type::Or(vec![obj(vec![("type", prop(lit("AlwaysDeserialized")))])]);
    assert_eq!(shape_of(&ty, &ShapeOptions::for_deserialize()), expected);
}

#[test]
fn misc_enum_with_internal_tagging() {
    let ty = en(
        tagged("tag"),
        vec![
            variant("Unit", Fields::Unit),
            variant("NewType", Fields::Unnamed(vec![pf(Ty::Number)])),
            variant("Struct", Fields::Named(vec![field("field", Ty::String)])),
        ],
    );

    let expected = Type::Or(vec![
        obj(vec![("tag", prop(lit("Unit")))]),
        Type::And(vec![obj(vec![("tag", prop(lit("NewType")))]), Type::Number]),
        Type::And(vec![
            obj(vec![("tag", prop(lit("Struct")))]),
            obj(vec![("field", prop(Type::String))]),
        ]),
    ]);

    assert_eq!(shape_of(&ty, &ShapeOptions::for_serialize()), expected);
    assert_eq!(shape_of(&ty, &ShapeOptions::for_deserialize()), expected);
}

#[test]
fn misc_enum_with_adjacently_tagged() {
    let ty = en(
        adjacent("type", "data"),
        vec![
            variant("VariantOne", Fields::Unnamed(vec![pf(Ty::Number)])),
            variant("VariantTwo", Fields::Named(vec![field("field", Ty::String)])),
        ],
    );

    let expected = Type::Or(vec![
        obj(vec![("type", prop(lit("VariantOne"))), ("data", prop(Type::Number))]),
        obj(vec![
            ("type", prop(lit("VariantTwo"))),
            ("data", prop(obj(vec![("field", prop(Type::String))]))),
        ]),
    ]);

    assert_eq!(shape_of(&ty, &ShapeOptions::for_serialize()), expected);
    assert_eq!(shape_of(&ty, &ShapeOptions::for_deserialize()), expected);
}

#[test]
fn misc_enum_with_untagged() {
    let ty = en(
        untagged(),
        vec![
            variant("VariantOne", Fields::Unnamed(vec![pf(Ty::Number)])),
            variant("VariantTwo", Fields::Unnamed(vec![pf(Ty::String)])),
        ],
    );

    let expected = Type::Or(vec![Type::Number, Type::String]);

    assert_eq!(shape_of(&ty, &ShapeOptions::for_serialize()), expected);
    assert_eq!(shape_of(&ty, &ShapeOptions::for_deserialize()), expected);
}

#[test]
fn misc_enum_with_flatten() {
    let flattened_struct = nstruct(ContainerAttrs::default(), vec![field("field", Ty::String)]);

    let ty = en(
        untagged(),
        vec![
            variant(
                "VariantA",
                Fields::Named(vec![fielda("flattened", flattened_struct, FieldAttrs {
                    flatten: Some(()),
                    ..Default::default()
                })]),
            ),
            variant("VariantB", Fields::Named(vec![field("another_field", Ty::Number)])),
        ],
    );

    let expected = Type::Or(vec![
        Type::And(vec![
            Type::Object(Object { properties: vec![] }),
            obj(vec![("field", prop(Type::String))]),
        ]),
        obj(vec![("another_field", prop(Type::Number))]),
    ]);

    assert_eq!(shape_of(&ty, &ShapeOptions::for_serialize()), expected);
    assert_eq!(shape_of(&ty, &ShapeOptions::for_deserialize()), expected);
}

#[test]
fn misc_enum_with_complex_variants() {
    let ty = en(
        ContainerAttrs::default(),
        vec![
            variant("Unit", Fields::Unit),
            variant("Tuple", Fields::Unnamed(vec![pf(Ty::Number), pf(Ty::String)])),
            variant("Struct", Fields::Named(vec![field("a", Ty::Number), field("b", Ty::Boolean)])),
        ],
    );

    let expected = Type::Or(vec![
        lit("Unit"),
        obj(vec![(
            "Tuple",
            prop(Type::Tuple(Tuple { items: vec![Type::Number, Type::String], rest: None })),
        )]),
        obj(vec![(
            "Struct",
            prop(obj(vec![("a", prop(Type::Number)), ("b", prop(Type::Boolean))])),
        )]),
    ]);

    assert_eq!(shape_of(&ty, &ShapeOptions::for_serialize()), expected);
    assert_eq!(shape_of(&ty, &ShapeOptions::for_deserialize()), expected);
}

#[test]
fn misc_option_type_serialization() {
    let ty = nstruct(
        ContainerAttrs::default(),
        vec![field("optional_field", Ty::Optional(Box::new(Ty::Number)))],
    );

    let expected = obj(vec![(
        "optional_field",
        prop(Type::Or(vec![Type::Number, Type::Null])),
    )]);

    assert_eq!(shape_of(&ty, &ShapeOptions::for_serialize()), expected);
}

#[test]
fn misc_option_type_deserialization() {
    let ty = nstruct(
        ContainerAttrs::default(),
        vec![field("optional_field", Ty::Optional(Box::new(Ty::Number)))],
    );

    let expected = obj(vec![(
        "optional_field",
        oprop(Type::Or(vec![Type::Number, Type::Null, Type::Undefined])),
    )]);

    assert_eq!(shape_of(&ty, &ShapeOptions::for_deserialize()), expected);
}

#[test]
fn misc_nested_option_serialization() {
    let ty = nstruct(
        ContainerAttrs::default(),
        vec![field(
            "nested_field",
            Ty::Optional(Box::new(Ty::Optional(Box::new(Ty::String)))),
        )],
    );

    let expected = obj(vec![(
        "nested_field",
        prop(Type::Or(vec![
            Type::Or(vec![Type::String, Type::Null]),
            Type::Null,
        ])),
    )]);

    assert_eq!(shape_of(&ty, &ShapeOptions::for_serialize()), expected);
}

#[test]
fn misc_nested_option_deserialization() {
    let ty = nstruct(
        ContainerAttrs::default(),
        vec![field(
            "nested_field",
            Ty::Optional(Box::new(Ty::Optional(Box::new(Ty::String)))),
        )],
    );

    let expected = obj(vec![(
        "nested_field",
        oprop(Type::Or(vec![
            Type::Or(vec![Type::String, Type::Null, Type::Undefined]),
            Type::Null,
            Type::Undefined,
        ])),
    )]);

    assert_eq!(shape_of(&ty, &ShapeOptions::for_deserialize()), expected);
}

#[test]
fn misc_option_in_enum_serialization() {
    let ty = en(
        untagged(),
        vec![variant(
            "Variant",
            Fields::Named(vec![field("field", Ty::Optional(Box::new(Ty::Number)))]),
        )],
    );

    let expected = Type::Or(vec![obj(vec![(
        "field",
        prop(Type::Or(vec![Type::Number, Type::Null])),
    )])]);

    assert_eq!(shape_of(&ty, &ShapeOptions::for_serialize()), expected);
}

#[test]
fn misc_option_in_enum_deserialization() {
    let ty = en(
        untagged(),
        vec![variant(
            "Variant",
            Fields::Named(vec![field("field", Ty::Optional(Box::new(Ty::Number)))]),
        )],
    );

    let expected = Type::Or(vec![obj(vec![(
        "field",
        oprop(Type::Or(vec![Type::Number, Type::Null, Type::Undefined])),
    )])]);

    assert_eq!(shape_of(&ty, &ShapeOptions::for_deserialize()), expected);
}

#[test]
fn misc_option_in_vec_serialization() {
    let ty = nstruct(
        ContainerAttrs::default(),
        vec![field(
            "fields",
            Ty::List(Box::new(Ty::Optional(Box::new(Ty::Number)))),
        )],
    );

    let expected = obj(vec![(
        "fields",
        prop(Type::Array(shape::Array {
            item: Box::new(Type::Or(vec![Type::Number, Type::Null])),
        })),
    )]);

    assert_eq!(shape_of(&ty, &ShapeOptions::for_serialize()), expected);
}

#[test]
fn misc_option_in_vec_deserialization() {
    let ty = nstruct(
        ContainerAttrs::default(),
        vec![field(
            "fields",
            Ty::List(Box::new(Ty::Optional(Box::new(Ty::Number)))),
        )],
    );

    let expected = obj(vec![(
        "fields",
        prop(Type::Array(shape::Array {
            item: Box::new(Type::Or(vec![Type::Number, Type::Null, Type::Undefined])),
        })),
    )]);

    assert_eq!(shape_of(&ty, &ShapeOptions::for_deserialize()), expected);
}
