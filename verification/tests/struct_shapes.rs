#![allow(dead_code)]
use shape::{resolve, ContainerAttrs, Fields, Object, ShapeOptions, StructDef, Ty, Type};

fn shape_of(ty: &Ty, o: &ShapeOptions) -> Type {
    resolve(ty, o).unwrap()
}

#[test]
fn empty_struct() {
    let empty = Ty::Struct(Box::new(StructDef {
        attrs: ContainerAttrs::default(),
        fields: Fields::Named(Vec::new()),
    }));

    let expected = Type::Object(Object { properties: Vec::new() });

    assert_eq!(shape_of(&empty, &ShapeOptions::for_serialize()), expected);
    assert_eq!(shape_of(&empty, &ShapeOptions::for_deserialize()), expected);
}
