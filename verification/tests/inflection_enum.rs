#![allow(dead_code)]
use shape::{resolve, Complex, ContainerAttrs, EnumDef, FieldAttrs, Fields, Inflection, Literal,
    NamedField, Object, Property, ShapeOptions, StructDef, Ty, Type, VariantAttrs, VariantDef};

fn shape_of(ty: &Ty, o: &ShapeOptions) -> Type {
    resolve(ty, o).unwrap()
}

fn field(name: &str, ty: Ty) -> NamedField {
    NamedField { name: String::from(name), attrs: FieldAttrs::default(), ty }
}

/// An enum with a single `SomeVariant { <field>: u8 }` variant.
fn one_variant_enum(attrs: ContainerAttrs, variant_attrs: VariantAttrs, field_name: &str) -> Ty {
    Ty::Enum(Box::new(EnumDef {
        attrs,
        variants: vec![VariantDef {
            name: String::from("SomeVariant"),
            attrs: variant_attrs,
            fields: Fields::Named(vec![field(field_name, Ty::Number)]),
        }],
    }))
}

fn nested(variant_key: &str, field_key: &str) -> Type {
    Type::Or(vec![Type::Object(Object {
        properties: vec![(
            String::from(variant_key),
            Property {
                optional: false,
                readonly: false,
                ty: Type::Object(Object {
                    properties: vec![(
                        String::from(field_key),
                        Property { ty: Type::Number, optional: false, readonly: false },
                    )],
                }),
            },
        )],
    })])
}

fn rename_all(i: Inflection) -> ContainerAttrs {
    ContainerAttrs { rename_all: Some(Complex::Single(i)), ..Default::default() }
}

fn rename_all_fields(i: Inflection) -> ContainerAttrs {
    ContainerAttrs { rename_all_fields: Some(Complex::Single(i)), ..Default::default() }
}

#[test]
fn snake_upper() {
    let ty = one_variant_enum(rename_all(Inflection::Snake), VariantAttrs::default(), "some_field");
    let expected = nested("some_variant", "some_field");
    assert_eq!(shape_of(&ty, &ShapeOptions::for_serialize()), expected);
    assert_eq!(shape_of(&ty, &ShapeOptions::for_deserialize()), expected);
}

#[test]
fn inflection_enum_screaming_snake_case() {
    let ty = one_variant_enum(
        rename_all(Inflection::ScreamingSnake),
        VariantAttrs::default(),
        "some_field",
    );
    let expected = nested("SOME_VARIANT", "some_field");
    assert_eq!(shape_of(&ty, &ShapeOptions::for_serialize()), expected);
    assert_eq!(shape_of(&ty, &ShapeOptions::for_deserialize()), expected);
}

#[test]
fn inflection_enum_lowercase() {
    let ty = one_variant_enum(rename_all(Inflection::Lower), VariantAttrs::default(), "some_field");
    let expected = nested("somevariant", "some_field");
    assert_eq!(shape_of(&ty, &ShapeOptions::for_serialize()), expected);
    assert_eq!(shape_of(&ty, &ShapeOptions::for_deserialize()), expected);
}

#[test]
fn inflection_enum_camel_case() {
    let ty = one_variant_enum(rename_all(Inflection::Camel), VariantAttrs::default(), "some_field");
    let expected = nested("someVariant", "some_field");
    assert_eq!(shape_of(&ty, &ShapeOptions::for_serialize()), expected);
    assert_eq!(shape_of(&ty, &ShapeOptions::for_deserialize()), expected);
}

#[test]
fn inflection_enum_pascal_case() {
    let ty = one_variant_enum(rename_all(Inflection::Pascal), VariantAttrs::default(), "some_field");
    let expected = nested("SomeVariant", "some_field");
    assert_eq!(shape_of(&ty, &ShapeOptions::for_serialize()), expected);
    assert_eq!(shape_of(&ty, &ShapeOptions::for_deserialize()), expected);
}

#[test]
fn inflection_enum_screaming_kebab_case() {
    let ty = one_variant_enum(
        rename_all(Inflection::ScreamingKebab),
        VariantAttrs::default(),
        "some_field",
    );
    let expected = nested("SOME-VARIANT", "some_field");
    assert_eq!(shape_of(&ty, &ShapeOptions::for_serialize()), expected);
    assert_eq!(shape_of(&ty, &ShapeOptions::for_deserialize()), expected);
}

#[test]
fn inflection_enum_kebab_case() {
    let ty = one_variant_enum(rename_all(Inflection::Kebab), VariantAttrs::default(), "some_field");
    let expected = nested("some-variant", "some_field");
    assert_eq!(shape_of(&ty, &ShapeOptions::for_serialize()), expected);
    assert_eq!(shape_of(&ty, &ShapeOptions::for_deserialize()), expected);
}

#[test]
fn inflection_enum_uppercase() {
    let ty = one_variant_enum(rename_all(Inflection::Upper), VariantAttrs::default(), "some_field");
    let expected = nested("SOMEVARIANT", "some_field");
    assert_eq!(shape_of(&ty, &ShapeOptions::for_serialize()), expected);
    assert_eq!(shape_of(&ty, &ShapeOptions::for_deserialize()), expected);
}

#[test]
fn rename_all_fields_snake_case() {
    let ty = one_variant_enum(
        rename_all_fields(Inflection::Snake),
        VariantAttrs::default(),
        "someField",
    );
    let expected = nested("SomeVariant", "some_field");
    assert_eq!(shape_of(&ty, &ShapeOptions::for_serialize()), expected);
    assert_eq!(shape_of(&ty, &ShapeOptions::for_deserialize()), expected);
}

#[test]
fn rename_all_fields_screaming_snake_case() {
    let ty = one_variant_enum(
        rename_all_fields(Inflection::ScreamingSnake),
        VariantAttrs::default(),
        "some_field",
    );
    let expected = nested("SomeVariant", "SOME_FIELD");
    assert_eq!(shape_of(&ty, &ShapeOptions::for_serialize()), expected);
    assert_eq!(shape_of(&ty, &ShapeOptions::for_deserialize()), expected);
}

#[test]
fn rename_all_fields_lowercase() {
    let ty = one_variant_enum(
        rename_all_fields(Inflection::Lower),
        VariantAttrs::default(),
        "someField",
    );
    let expected = nested("SomeVariant", "somefield");
    assert_eq!(shape_of(&ty, &ShapeOptions::for_serialize()), expected);
    assert_eq!(shape_of(&ty, &ShapeOptions::for_deserialize()), expected);
}

#[test]
fn rename_all_fields_uppercase() {
    let ty = one_variant_enum(
        rename_all_fields(Inflection::Upper),
        VariantAttrs::default(),
        "someField",
    );
    let expected = nested("SomeVariant", "SOMEFIELD");
    assert_eq!(shape_of(&ty, &ShapeOptions::for_serialize()), expected);
    assert_eq!(shape_of(&ty, &ShapeOptions::for_deserialize()), expected);
}

#[test]
fn rename_all_fields_camel_case() {
    let ty = one_variant_enum(
        rename_all_fields(Inflection::Camel),
        VariantAttrs::default(),
        "some_field",
    );
    let expected = nested("SomeVariant", "someField");
    assert_eq!(shape_of(&ty, &ShapeOptions::for_serialize()), expected);
    assert_eq!(shape_of(&ty, &ShapeOptions::for_deserialize()), expected);
}

#[test]
fn rename_all_fields_screaming_kebab_case() {
    let ty = one_variant_enum(
        ContainerAttrs {
            rename_all_fields: Some(Complex::Complex {
                serialize: Some(Inflection::ScreamingKebab),
                deserialize: Some(Inflection::Camel),
            }),
            ..Default::default()
        },
        VariantAttrs::default(),
        "some_field",
    );
    let ser = nested("SomeVariant", "SOME-FIELD");
    let de = nested("SomeVariant", "someField");
    assert_eq!(shape_of(&ty, &ShapeOptions::for_serialize()), ser);
    assert_eq!(shape_of(&ty, &ShapeOptions::for_deserialize()), de);
}

#[test]
fn rename_all_fields_kebab_case() {
    let ty = one_variant_enum(
        rename_all_fields(Inflection::Kebab),
        VariantAttrs::default(),
        "some_field",
    );
    let expected = nested("SomeVariant", "some-field");
    assert_eq!(shape_of(&ty, &ShapeOptions::for_serialize()), expected);
    assert_eq!(shape_of(&ty, &ShapeOptions::for_deserialize()), expected);
}

#[test]
fn rename_all_fields_pascal_case() {
    let ty = one_variant_enum(
        rename_all_fields(Inflection::Pascal),
        VariantAttrs::default(),
        "some_field",
    );
    let expected = nested("SomeVariant", "SomeField");
    assert_eq!(shape_of(&ty, &ShapeOptions::for_serialize()), expected);
    assert_eq!(shape_of(&ty, &ShapeOptions::for_deserialize()), expected);
}

fn variant_obj(variant_key: &str, field_key: &str) -> Type {
    Type::Or(vec![Type::Object(Object {
        properties: vec![(
            String::from(variant_key),
            Property {
                optional: false,
                readonly: false,
                ty: Type::Object(Object {
                    properties: vec![(
                        String::from(field_key),
                        Property { ty: Type::String, optional: false, readonly: false },
                    )],
                }),
            },
        )],
    })])
}

#[test]
fn variant_rename_all() {
    let ty = Ty::Enum(Box::new(EnumDef {
        attrs: ContainerAttrs {
            rename_all: Some(Complex::Complex {
                serialize: Some(Inflection::Camel),
                deserialize: Some(Inflection::ScreamingKebab),
            }),
            ..Default::default()
        },
        variants: vec![VariantDef {
            name: String::from("VariantOne"),
            attrs: VariantAttrs {
                rename_all: Some(Complex::Complex {
                    serialize: Some(Inflection::Pascal),
                    deserialize: Some(Inflection::Upper),
                }),
                ..Default::default()
            },
            fields: Fields::Named(vec![field("some_field", Ty::String)]),
        }],
    }));

    let ser = variant_obj("variantOne", "SomeField");
    let de = variant_obj("VARIANT-ONE", "SOME_FIELD");
    assert_eq!(shape_of(&ty, &ShapeOptions::for_serialize()), ser);
    assert_eq!(shape_of(&ty, &ShapeOptions::for_deserialize()), de);
}

#[test]
fn variant_rename() {
    let ty = Ty::Enum(Box::new(EnumDef {
        attrs: ContainerAttrs::default(),
        variants: vec![
            VariantDef {
                name: String::from("VariantOne"),
                attrs: VariantAttrs {
                    rename: Some(Complex::Complex {
                        serialize: Some(String::from("variant_one")),
                        deserialize: Some(String::from("VARIANT-ONE")),
                    }),
                    ..Default::default()
                },
                fields: Fields::Unit,
            },
            VariantDef {
                name: String::from("VariantTwo"),
                attrs: VariantAttrs {
                    rename: Some(Complex::Single(String::from("VARI_TWO"))),
                    ..Default::default()
                },
                fields: Fields::Unit,
            },
        ],
    }));

    let ser = Type::Or(vec![
        Type::Literal(Literal::String(String::from("variant_one"))),
        Type::Literal(Literal::String(String::from("VARI_TWO"))),
    ]);

    let de = Type::Or(vec![
        Type::Literal(Literal::String(String::from("VARIANT-ONE"))),
        Type::Literal(Literal::String(String::from("VARI_TWO"))),
    ]);

    assert_eq!(shape_of(&ty, &ShapeOptions::for_serialize()), ser);
    assert_eq!(shape_of(&ty, &ShapeOptions::for_deserialize()), de);
}
