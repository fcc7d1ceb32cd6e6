#![allow(dead_code)]
use shape::{Array, Decimal, IsAsignable, JsonValue, Literal, Object, Property, Record, Tuple,
    Type};

fn jstr(s: &str) -> JsonValue {
    JsonValue::String(String::from(s))
}

fn jnum(i: i64) -> JsonValue {
    JsonValue::Number(Decimal::from_int(i))
}

fn jdec(s: &str) -> JsonValue {
    JsonValue::Number(Decimal::parse(s).unwrap())
}

fn jobj(ms: Vec<(&str, JsonValue)>) -> JsonValue {
    JsonValue::Object(ms.into_iter().map(|(k, v)| (String::from(k), v)).collect())
}

fn prop(ty: Type) -> Property {
    Property { ty, optional: false, readonly: false }
}

fn obj_ty(props: Vec<(&str, Property)>) -> Type {
    Type::Object(Object {
        properties: props.into_iter().map(|(k, p)| (String::from(k), p)).collect(),
    })
}

fn slit(s: &str) -> Type {
    Type::Literal(Literal::String(String::from(s)))
}

fn nlit(i: i64) -> Type {
    Type::Literal(Literal::Number(Decimal::from_int(i)))
}

#[test]
fn is_assignable_primitives() {
    assert!(Type::String.is_assignable(&jstr("a")));
    assert!(Type::Number.is_assignable(&jnum(1)));
    assert!(Type::Boolean.is_assignable(&JsonValue::Bool(true)));
    assert!(Type::Null.is_assignable(&JsonValue::Null));

    assert!(!Type::String.is_assignable(&jnum(1)));
    assert!(!Type::Number.is_assignable(&jstr("a")));
    assert!(!Type::Boolean.is_assignable(&jnum(1)));
    assert!(!Type::Null.is_assignable(&JsonValue::Bool(true)));
    assert!(!Type::Undefined.is_assignable(&JsonValue::Null));
}

#[test]
fn is_assignable_literals() {
    assert!(slit("a").is_assignable(&jstr("a")));
    assert!(nlit(1).is_assignable(&jnum(1)));
    assert!(Type::Literal(Literal::Boolean(true)).is_assignable(&JsonValue::Bool(true)));

    assert!(!slit("a").is_assignable(&jnum(1)));
    assert!(!slit("a").is_assignable(&jstr("b")));
    assert!(!nlit(1).is_assignable(&jdec("1.1")));
    assert!(!Type::Literal(Literal::Boolean(true)).is_assignable(&JsonValue::Bool(false)));
}

#[test]
fn is_assignable_never() {
    assert!(!Type::Never.is_assignable(&JsonValue::Null));
    assert!(!Type::Never.is_assignable(&jnum(1)));
    assert!(!Type::Never.is_assignable(&JsonValue::Bool(true)));
}

#[test]
fn is_assignable_tuple() {
    assert!(Type::Tuple(Tuple {
        items: vec![Type::String, Type::Number],
        rest: None,
    })
    .is_assignable(&JsonValue::Array(vec![jstr("a"), jnum(1)])));

    assert!(Type::Tuple(Tuple {
        items: vec![Type::String, Type::Number],
        rest: Some(Box::new(Type::Boolean)),
    })
    .is_assignable(&JsonValue::Array(vec![
        jstr("a"),
        jnum(1),
        JsonValue::Bool(true),
        JsonValue::Bool(false),
    ])));

    assert!(Type::Tuple(Tuple {
        items: vec![slit("a"), Type::Number],
        rest: Some(Box::new(Type::Boolean)),
    })
    .is_assignable(&JsonValue::Array(vec![
        jstr("a"),
        jnum(1),
        JsonValue::Bool(true),
        JsonValue::Bool(false),
    ])));

    assert!(!Type::Tuple(Tuple {
        items: vec![slit("a"), Type::Number],
        rest: Some(Box::new(Type::Boolean)),
    })
    .is_assignable(&JsonValue::Array(vec![
        jstr("b"),
        jnum(1),
        JsonValue::Bool(true),
        JsonValue::Bool(false),
    ])));

    assert!(!Type::Tuple(Tuple {
        items: vec![Type::String, Type::Number],
        rest: Some(Box::new(Type::Boolean)),
    })
    .is_assignable(&JsonValue::Array(vec![
        jstr("a"),
        jnum(1),
        jnum(2),
        JsonValue::Bool(false),
    ])));

    assert!(!Type::Tuple(Tuple {
        items: vec![Type::String, Type::Number],
        rest: None,
    })
    .is_assignable(&JsonValue::Array(vec![jnum(1)])));

    assert!(!Type::Tuple(Tuple { items: vec![], rest: None })
        .is_assignable(&JsonValue::Bool(true)));
}

#[test]
fn objects() {
    let obj_type = obj_ty(vec![
        ("name", prop(Type::String)),
        ("age", prop(Type::Number)),
    ]);
    assert!(obj_type.is_assignable(&jobj(vec![("name", jstr("Alice")), ("age", jnum(30))])));
    assert!(!obj_type.is_assignable(&jobj(vec![("name", jstr("Alice"))])));

    let obj_type = obj_ty(vec![
        ("name", prop(Type::String)),
        ("age", Property { ty: Type::Number, optional: true, readonly: false }),
    ]);
    assert!(obj_type.is_assignable(&jobj(vec![("name", jstr("Alice"))])));
    assert!(obj_type.is_assignable(&jobj(vec![("name", jstr("Alice")), ("age", jnum(30))])));

    let obj_type = obj_ty(vec![(
        "id",
        Property { ty: Type::Number, optional: false, readonly: true },
    )]);
    assert!(obj_type.is_assignable(&jobj(vec![("id", jnum(42))])));

    let obj_type = obj_ty(vec![(
        "data",
        prop(Type::Array(Array { item: Box::new(Type::String) })),
    )]);
    assert!(obj_type.is_assignable(&jobj(vec![(
        "data",
        JsonValue::Array(vec![jstr("a"), jstr("b"), jstr("c")]),
    )])));
    assert!(!obj_type.is_assignable(&jobj(vec![(
        "data",
        JsonValue::Array(vec![jstr("a"), jnum(1), jstr("c")]),
    )])));

    assert!(!obj_type.is_assignable(&JsonValue::Array(vec![])));
    assert!(!obj_type.is_assignable(&JsonValue::Bool(true)));
    assert!(!obj_type.is_assignable(&JsonValue::Null));
}

#[test]
fn arrays() {
    let array_type = Type::Array(Array { item: Box::new(Type::Number) });
    assert!(array_type.is_assignable(&JsonValue::Array(vec![jnum(1), jnum(2), jnum(3)])));
    assert!(!array_type.is_assignable(&JsonValue::Array(vec![jnum(1), jstr("a"), jnum(3)])));

    let array_type = Type::Array(Array { item: Box::new(Type::String) });
    assert!(array_type.is_assignable(&JsonValue::Array(vec![])));

    let array_type = Type::Array(Array { item: Box::new(slit("a")) });
    assert!(array_type.is_assignable(&JsonValue::Array(vec![jstr("a"), jstr("a"), jstr("a")])));
    assert!(!array_type.is_assignable(&JsonValue::Array(vec![jstr("a"), jstr("b")])));

    assert!(!Type::Array(Array { item: Box::new(Type::String) })
        .is_assignable(&jobj(vec![("a", jnum(1))])));
}

fn rec(key: Type, value: Type) -> Type {
    Type::Record(Record {
        optional: false,
        readonly: false,
        key: Box::new(key),
        value: Box::new(value),
    })
}

#[test]
fn records() {
    let record_type = rec(Type::String, Type::Number);
    assert!(record_type.is_assignable(&jobj(vec![("a", jnum(1)), ("b", jnum(2))])));
    assert!(!record_type.is_assignable(&jobj(vec![("a", jstr("1")), ("b", jnum(2))])));

    let record_type = Type::Record(Record {
        optional: true,
        readonly: false,
        key: Box::new(Type::String),
        value: Box::new(Type::Boolean),
    });
    assert!(record_type.is_assignable(&jobj(vec![])));
    assert!(record_type.is_assignable(&jobj(vec![
        ("a", JsonValue::Bool(true)),
        ("b", JsonValue::Bool(false)),
    ])));

    let record_type = rec(slit("key"), Type::Or(vec![Type::Number, Type::String]));
    assert!(record_type.is_assignable(&jobj(vec![("key", jnum(42))])));
    assert!(record_type.is_assignable(&jobj(vec![("key", jstr("value"))])));
    assert!(!record_type.is_assignable(&jobj(vec![("key", JsonValue::Bool(true))])));

    let record_type = rec(Type::Number, Type::Number);
    assert!(record_type.is_assignable(&jobj(vec![("1", jnum(42))])));
    assert!(record_type.is_assignable(&jobj(vec![("3.0", jdec("42.0"))])));
    assert!(!record_type.is_assignable(&jobj(vec![("key", jstr("value"))])));

    let record_type = rec(
        Type::Or(vec![nlit(5), slit("30")]),
        Type::Number,
    );
    assert!(record_type.is_assignable(&jobj(vec![("30", jnum(42)), ("5", jnum(1))])));
    assert!(!record_type.is_assignable(&jobj(vec![("5", jdec("42.0"))])));
    assert!(!record_type.is_assignable(&jobj(vec![("key", jstr("value"))])));

    let record_type = rec(Type::And(vec![slit("a"), slit("b")]), Type::Number);
    assert!(record_type.is_assignable(&jobj(vec![])));
    assert!(record_type.is_assignable(&jobj(vec![("a", jnum(42))])));

    let record_type = rec(Type::And(vec![slit("a"), slit("a")]), Type::Number);
    assert!(record_type.is_assignable(&jobj(vec![("a", jnum(42))])));
    assert!(!record_type.is_assignable(&jobj(vec![("a", jstr("b"))])));

    let record_type = rec(Type::String, Type::Never);
    assert!(record_type.is_assignable(&jobj(vec![])));
    assert!(!record_type.is_assignable(&jobj(vec![("a", jstr("b"))])));

    let record_type = rec(Type::Custom(String::from("a")), Type::Never);
    assert!(!record_type.is_assignable(&jobj(vec![])));

    let record_type = rec(Type::Null, Type::String);
    assert!(!record_type.is_assignable(&jobj(vec![])));

    let record_type = rec(Type::Undefined, Type::String);
    assert!(!record_type.is_assignable(&jobj(vec![])));

    let record_type = rec(Type::Array(Array { item: Box::new(Type::String) }), Type::String);
    assert!(!record_type.is_assignable(&jobj(vec![])));

    let record_type = rec(Type::Object(Object { properties: vec![] }), Type::String);
    assert!(!record_type.is_assignable(&jobj(vec![])));

    let record_type = rec(Type::Never, Type::String);
    assert!(!record_type.is_assignable(&jobj(vec![])));

    let record_type = rec(Type::Boolean, Type::String);
    assert!(!record_type.is_assignable(&jobj(vec![])));

    let record_type = rec(rec(Type::String, Type::String), Type::String);
    assert!(!record_type.is_assignable(&jobj(vec![])));

    let record_type = rec(
        Type::Tuple(Tuple { items: vec![Type::String, Type::Number], rest: None }),
        Type::String,
    );
    assert!(!record_type.is_assignable(&jobj(vec![])));

    let record_type = rec(Type::Literal(Literal::Boolean(true)), Type::String);
    assert!(!record_type.is_assignable(&jobj(vec![])));

    let record_type = rec(Type::Literal(Literal::Boolean(true)), Type::String);
    assert!(!record_type.is_assignable(&jobj(vec![])));

    let record_type = rec(Type::String, Type::String);
    assert!(!record_type.is_assignable(&JsonValue::Array(vec![])));
}

#[test]
fn and_type() {
    let and_type = Type::And(vec![Type::Number, nlit(42)]);
    assert!(and_type.is_assignable(&jnum(42)));
    assert!(!and_type.is_assignable(&jnum(43)));
    assert!(!and_type.is_assignable(&jstr("42")));

    let and_type = Type::And(vec![
        obj_ty(vec![("key", prop(Type::String))]),
        obj_ty(vec![("value", prop(Type::Number))]),
    ]);
    assert!(and_type.is_assignable(&jobj(vec![("key", jstr("test")), ("value", jnum(123))])));
    assert!(!and_type.is_assignable(&jobj(vec![("key", jstr("test"))])));
    assert!(!and_type.is_assignable(&jobj(vec![("value", jnum(123))])));

    let and_type = Type::And(vec![
        Type::Array(Array { item: Box::new(Type::String) }),
        Type::Array(Array { item: Box::new(slit("test")) }),
    ]);
    assert!(and_type.is_assignable(&JsonValue::Array(vec![jstr("test"), jstr("test")])));
    assert!(!and_type.is_assignable(&JsonValue::Array(vec![jstr("test"), jstr("other")])));
}

#[test]
fn or_type() {
    let or_type = Type::Or(vec![Type::Number, Type::String]);
    assert!(or_type.is_assignable(&jnum(42)));
    assert!(or_type.is_assignable(&jstr("hello")));
    assert!(!or_type.is_assignable(&JsonValue::Bool(true)));

    let or_type = Type::Or(vec![slit("specific"), Type::String]);
    assert!(or_type.is_assignable(&jstr("specific")));
    assert!(or_type.is_assignable(&jstr("general")));
    assert!(!or_type.is_assignable(&jnum(123)));

    let or_type = Type::Or(vec![
        obj_ty(vec![("optionalKey", prop(Type::String))]),
        obj_ty(vec![("requiredKey", prop(Type::Number))]),
    ]);
    assert!(or_type.is_assignable(&jobj(vec![("optionalKey", jstr("value"))])));
    assert!(or_type.is_assignable(&jobj(vec![("requiredKey", jnum(42))])));
    assert!(!or_type.is_assignable(&jobj(vec![("anotherKey", JsonValue::Bool(true))])));

    let or_type = Type::Or(vec![
        Type::Array(Array { item: Box::new(Type::Number) }),
        Type::Array(Array { item: Box::new(Type::String) }),
    ]);
    assert!(or_type.is_assignable(&JsonValue::Array(vec![jnum(1), jnum(2), jnum(3)])));
    assert!(or_type.is_assignable(&JsonValue::Array(vec![jstr("a"), jstr("b"), jstr("c")])));
    assert!(!or_type.is_assignable(&JsonValue::Array(vec![
        jnum(1),
        jstr("a"),
        JsonValue::Bool(true),
    ])));
}

#[test]
fn is_assignable_custom() {
    let custom_type = Type::Custom(String::from("a"));
    assert!(!custom_type.is_assignable(&jstr("a")));
}
