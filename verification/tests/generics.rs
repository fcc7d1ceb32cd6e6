#![allow(dead_code)]
use shape::{resolve, ContainerAttrs, FieldAttrs, Fields, NamedField, Object, Property,
    ShapeOptions, StructDef, Ty, Type};

fn shape_of(ty: &Ty, o: &ShapeOptions) -> Type {
    resolve(ty, o).unwrap()
}

fn generic_over_string() -> Ty {
    Ty::Struct(Box::new(StructDef {
        attrs: ContainerAttrs::default(),
        fields: Fields::Named(vec![NamedField {
            name: String::from("field"),
            attrs: FieldAttrs::default(),
            ty: Ty::Wrapper(Box::new(Ty::String)),
        }]),
    }))
}

fn expected() -> Type {
    Type::Object(Object {
        properties: vec![(
            String::from("field"),
            Property { ty: Type::String, optional: false, readonly: false },
        )],
    })
}

#[test]
fn generics() {
    assert_eq!(shape_of(&generic_over_string(), &ShapeOptions::for_serialize()), expected());
}

#[test]
fn generics_with_where_clause() {
    assert_eq!(shape_of(&generic_over_string(), &ShapeOptions::for_serialize()), expected());
}
