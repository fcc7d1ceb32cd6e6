use vstd::prelude::*;

verus! {

/// The direction a shape is computed for.
#[derive(Debug, Clone, Copy)]
pub enum ShapeOptionsKind {
    Serialize,
    Deserialize,
}

/// Direction plus the three switches that govern how an optional-valued
/// member is reflected in its shape.
#[derive(Debug, Clone, Copy)]
pub struct ShapeOptions {
    pub kind: ShapeOptionsKind,
    pub option_is_optional: bool,
    pub option_add_undefined: bool,
    pub option_add_null: bool,
}

impl ShapeOptions {
    pub open spec fn is_serialize_spec(&self) -> bool {
        self.kind is Serialize
    }

    pub open spec fn is_deserialize_spec(&self) -> bool {
        self.kind is Deserialize
    }

    /// The recommended switches for the serialize direction: a present
    /// optional value still serializes to at least `null`.
    pub fn for_serialize() -> (r: Self)
        ensures
            r.kind is Serialize,
            !r.option_is_optional,
            !r.option_add_undefined,
            r.option_add_null,
    {
        Self {
            kind: ShapeOptionsKind::Serialize,
            option_is_optional: false,
            option_add_undefined: false,
            option_add_null: true,
        }
    }

    /// The recommended switches for the deserialize direction: the key may
    /// be missing entirely, or hold `null` or `undefined`.
    pub fn for_deserialize() -> (r: Self)
        ensures
            r.kind is Deserialize,
            r.option_is_optional,
            r.option_add_undefined,
            r.option_add_null,
    {
        Self {
            kind: ShapeOptionsKind::Deserialize,
            option_is_optional: true,
            option_add_undefined: true,
            option_add_null: true,
        }
    }

    pub fn is_serialize(&self) -> (r: bool)
        ensures
            r == self.is_serialize_spec(),
    {
        match self.kind {
            ShapeOptionsKind::Serialize => true,
            ShapeOptionsKind::Deserialize => false,
        }
    }

    pub fn is_deserialize(&self) -> (r: bool)
        ensures
            r == self.is_deserialize_spec(),
    {
        match self.kind {
            ShapeOptionsKind::Serialize => false,
            ShapeOptionsKind::Deserialize => true,
        }
    }
}

} // verus!
