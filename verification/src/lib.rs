//! Structural type descriptions ("shapes") for serialized data.
//!
//! The crate models how a data type is represented once serialized to a
//! self-describing format: `Type` describes the abstract shape, `resolve`
//! derives the shape of a struct or enum descriptor for one direction
//! (serialize or deserialize), `is_assignable` checks a dynamic value
//! against a shape, and `to_typescript` renders a shape as a type
//! expression.

pub mod options;
pub use options::{ShapeOptions, ShapeOptionsKind};
pub mod text;
pub mod num;
pub use num::Decimal;
pub mod model;
pub use model::{Array, Literal, Object, Property, Record, Tuple, Type};
pub mod json;
pub use json::JsonValue;
pub mod descriptor;
pub use descriptor::{Complex, ContainerAttrs, EnumDef, FieldAttrs, Fields, Inflection, NamedField,
    PosField, SerDe, StructDef, Ty, UnitOr, VariantAttrs, VariantDef};
pub mod inflect;
pub mod resolve;
pub use resolve::{resolve, resolve_ty, validate, DeriveError};
pub mod assignable;
pub use assignable::IsAsignable;
pub mod render;
pub use render::ToTypescript;
pub mod laws;

