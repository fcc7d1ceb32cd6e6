#![allow(dead_code)]
use shape::{resolve, Complex, ContainerAttrs, EnumDef, FieldAttrs, Fields, Inflection, Literal,
    NamedField, Object, Property, SerDe, ShapeOptions, StructDef, Ty, Type, VariantAttrs,
    VariantDef};

fn shape_of(ty: &Ty, o: &ShapeOptions) -> Type {
    resolve(ty, o).unwrap()
}

fn field(name: &str, ty: Ty) -> NamedField {
    NamedField { name: String::from(name), attrs: FieldAttrs::default(), ty }
}

fn obj(props: Vec<(&str, Type)>) -> Type {
    Type::Object(Object {
        properties: props
            .into_iter()
            .map(|(k, ty)| {
                (String::from(k), Property { ty, optional: false, readonly: false })
            })
            .collect(),
    })
}

#[test]
fn rename_all_ser_de() {
    let ty = Ty::Struct(Box::new(StructDef {
        attrs: ContainerAttrs {
            rename_all: Some(Complex::Complex {
                serialize: Some(Inflection::Camel),
                deserialize: Some(Inflection::Pascal),
            }),
            ..Default::default()
        },
        fields: Fields::Named(vec![
            field("original_field", Ty::String),
            field("another_field", Ty::Number),
        ]),
    }));

    let ser = obj(vec![("originalField", Type::String), ("anotherField", Type::Number)]);
    let de = obj(vec![("OriginalField", Type::String), ("AnotherField", Type::Number)]);

    assert_eq!(shape_of(&ty, &ShapeOptions::for_serialize()), ser);
    assert_eq!(shape_of(&ty, &ShapeOptions::for_deserialize()), de);
}

#[test]
fn rename_ser_de() {
    let ty = Ty::Struct(Box::new(StructDef {
        attrs: ContainerAttrs::default(),
        fields: Fields::Named(vec![NamedField {
            name: String::from("field"),
            attrs: FieldAttrs {
                rename: Some(Complex::Complex {
                    serialize: Some(String::from("_field")),
                    deserialize: Some(String::from("Field")),
                }),
                ..Default::default()
            },
            ty: Ty::String,
        }]),
    }));

    let ser = obj(vec![("_field", Type::String)]);
    let de = obj(vec![("Field", Type::String)]);

    assert_eq!(shape_of(&ty, &ShapeOptions::for_serialize()), ser);
    assert_eq!(shape_of(&ty, &ShapeOptions::for_deserialize()), de);
}

fn one_variant(variant_key: &str, field_key: &str, ty: Type) -> Type {
    Type::Or(vec![Type::Object(Object {
        properties: vec![(
            String::from(variant_key),
            Property {
                optional: false,
                readonly: false,
                ty: Type::Object(Object {
                    properties: vec![(
                        String::from(field_key),
                        Property { ty, optional: false, readonly: false },
                    )],
                }),
            },
        )],
    })])
}

#[test]
fn enum_rename_all_fields() {
    let ty = Ty::Enum(Box::new(EnumDef {
        attrs: ContainerAttrs {
            rename_all_fields: Some(Complex::Complex {
                serialize: Some(Inflection::ScreamingSnake),
                deserialize: Some(Inflection::Camel),
            }),
            ..Default::default()
        },
        variants: vec![VariantDef {
            name: String::from("VariantOne"),
            attrs: VariantAttrs::default(),
            fields: Fields::Named(vec![field("some_field", Ty::String)]),
        }],
    }));

    let ser = one_variant("VariantOne", "SOME_FIELD", Type::String);
    let de = one_variant("VariantOne", "someField", Type::String);

    assert_eq!(shape_of(&ty, &ShapeOptions::for_serialize()), ser);
    assert_eq!(shape_of(&ty, &ShapeOptions::for_deserialize()), de);
}

#[test]
fn enum_variant_rename() {
    let ty = Ty::Enum(Box::new(EnumDef {
        attrs: ContainerAttrs::default(),
        variants: vec![VariantDef {
            name: String::from("VariantOne"),
            attrs: VariantAttrs {
                rename: Some(Complex::Complex {
                    serialize: Some(String::from("variant_one")),
                    deserialize: Some(String::from("VARIANT-ONE")),
                }),
                ..Default::default()
            },
            fields: Fields::Unit,
        }],
    }));

    let ser = Type::Or(vec![Type::Literal(Literal::String(String::from("variant_one")))]);
    let de = Type::Or(vec![Type::Literal(Literal::String(String::from("VARIANT-ONE")))]);

    assert_eq!(shape_of(&ty, &ShapeOptions::for_serialize()), ser);
    assert_eq!(shape_of(&ty, &ShapeOptions::for_deserialize()), de);
}

#[test]
fn enum_variant_rename_all() {
    let ty = Ty::Enum(Box::new(EnumDef {
        attrs: ContainerAttrs::default(),
        variants: vec![VariantDef {
            name: String::from("VariantOne"),
            attrs: VariantAttrs {
                rename_all: Some(Complex::Complex {
                    serialize: Some(Inflection::Pascal),
                    deserialize: Some(Inflection::ScreamingKebab),
                }),
                ..Default::default()
            },
            fields: Fields::Named(vec![field("some_field", Ty::String)]),
        }],
    }));

    let ser = one_variant("VariantOne", "SomeField", Type::String);
    let de = one_variant("VariantOne", "SOME-FIELD", Type::String);

    assert_eq!(shape_of(&ty, &ShapeOptions::for_serialize()), ser);
    assert_eq!(shape_of(&ty, &ShapeOptions::for_deserialize()), de);
}

// An explicit serialize/deserialize pair converts into the two-sided form.
#[test]
fn serde_pair_conversion() {
    let pair = SerDe { serialize: Some(String::from("a")), deserialize: None };
    let c: Complex<String> = Complex::from(pair);
    assert_eq!(
        c,
        Complex::Complex { serialize: Some(String::from("a")), deserialize: None }
    );
}
