use vstd::prelude::*;
use crate::descriptor::{
    Complex, ComplexV, ContainerAttrs, ContainerAttrsV, Fields, FieldsV, Inflection, NamedField,
    NamedFieldV, PosField, PosFieldV, StructDefV, EnumDefV, Ty, TyV, VariantAttrs, VariantAttrsV,
    VariantDef, VariantDefV, view_named_fields, view_pos_fields, view_tys, view_variants, is_option,
    lemma_view_named_fields, lemma_view_pos_fields, lemma_view_tys, lemma_view_variants,
};
use crate::model::{
    Array, ArrayV, Literal, LiteralV, Object, ObjectV, Property, PropertyV, Record, RecordV,
    Tuple, TupleV, Type, TypeV, clone_type, clone_types, view_props, view_types,
    lemma_view_props, lemma_view_types,
};
use crate::options::ShapeOptions;
use vstd::slice::{slice_index_get, slice_subrange};

verus! {

// ===================================================================
// Name resolution
// ===================================================================

/// Apply a rename-all convention, honoring a direction pair.
pub open spec fn apply_inflection_opt(
    c: Option<ComplexV<Inflection>>,
    name: Seq<char>,
    o: ShapeOptions,
) -> Seq<char> {
    match c {
        Option::None => name,
        Option::Some(ComplexV::Single(i)) => i.apply_spec(name),
        Option::Some(ComplexV::Pair { serialize, deserialize }) => {
            if o.is_serialize_spec() {
                match serialize {
                    Option::Some(i) => i.apply_spec(name),
                    Option::None => name,
                }
            } else {
                match deserialize {
                    Option::Some(i) => i.apply_spec(name),
                    Option::None => name,
                }
            }
        },
    }
}

/// Apply an explicit rename; a single value fully overrides the inflected
/// name, a pair overrides only its own direction.
pub open spec fn apply_rename_opt(
    r: Option<ComplexV<Seq<char>>>,
    current: Seq<char>,
    o: ShapeOptions,
) -> Seq<char> {
    match r {
        Option::None => current,
        Option::Some(ComplexV::Single(n)) => n,
        Option::Some(ComplexV::Pair { serialize, deserialize }) => {
            if o.is_serialize_spec() {
                match serialize {
                    Option::Some(n) => n,
                    Option::None => current,
                }
            } else {
                match deserialize {
                    Option::Some(n) => n,
                    Option::None => current,
                }
            }
        },
    }
}

/// The object key a named field gets: container (or per-variant)
/// rename-all inflections first, then the field's own rename.
pub open spec fn field_name_spec(
    f: NamedFieldV,
    ca: ContainerAttrsV,
    va: Option<VariantAttrsV>,
    o: ShapeOptions,
) -> Seq<char> {
    let base = match va {
        Option::None => apply_inflection_opt(ca.rename_all, f.name, o),
        Option::Some(va) => apply_inflection_opt(
            va.rename_all,
            apply_inflection_opt(ca.rename_all_fields, f.name, o),
            o,
        ),
    };
    apply_rename_opt(f.attrs.rename, base, o)
}

/// The discriminant name of a variant: the container's rename-all over the
/// identifier, then the variant's own rename.
pub open spec fn variant_name_spec(v: VariantDefV, ca: ContainerAttrsV, o: ShapeOptions) -> Seq<
    char,
> {
    apply_rename_opt(v.attrs.rename, apply_inflection_opt(ca.rename_all, v.name, o), o)
}

// ===================================================================
// Field classification
// ===================================================================

/// Whether a named field's key may be absent: an optional-valued field
/// under the option-is-optional switch; a conditionally skipped field when
/// serializing; a defaulted field when deserializing.
pub open spec fn field_optional_spec(f: NamedFieldV, ca: ContainerAttrsV, o: ShapeOptions) -> bool {
    if (f.ty is Optional) && o.option_is_optional {
        true
    } else if o.is_serialize_spec() {
        f.attrs.skip_serializing_if
    } else {
        f.attrs.default || ca.default
    }
}

/// Whether a named field contributes a property in the active direction.
pub open spec fn field_included_spec(f: NamedFieldV, o: ShapeOptions) -> bool {
    (o.is_serialize_spec() && !f.attrs.skip_serializing) || (o.is_deserialize_spec()
        && !f.attrs.skip_deserializing)
}

// ===================================================================
// Assembly helpers
// ===================================================================

/// Union an optional-valued member's shape with null/undefined per the
/// active switches.
pub open spec fn optional_wrap(inner: TypeV, o: ShapeOptions) -> TypeV {
    if o.option_add_null && o.option_add_undefined {
        TypeV::Or(seq![inner, TypeV::Null, TypeV::Undefined])
    } else if o.option_add_null {
        TypeV::Or(seq![inner, TypeV::Null])
    } else if o.option_add_undefined {
        TypeV::Or(seq![inner, TypeV::Undefined])
    } else {
        inner
    }
}

/// A non-optional, writable property.
pub open spec fn plain_prop(t: TypeV) -> PropertyV {
    PropertyV { optional: false, readonly: false, ty: t }
}

/// An object with the single property `tag: "name"`.
pub open spec fn tag_object(tag: Seq<char>, name: Seq<char>) -> TypeV {
    TypeV::Object(
        ObjectV { properties: seq![(tag, plain_prop(TypeV::Literal(LiteralV::String(name))))] },
    )
}

/// Insertion-ordered map insert: an existing key keeps its position and
/// takes the new property; a new key is appended.
pub open spec fn props_insert(
    ps: Seq<(Seq<char>, PropertyV)>,
    k: Seq<char>,
    p: PropertyV,
) -> Seq<(Seq<char>, PropertyV)>
    decreases ps,
{
    if ps.len() == 0 {
        seq![(k, p)]
    } else if ps.first().0 == k {
        seq![(k, p)] + ps.drop_first()
    } else {
        seq![ps.first()] + props_insert(ps.drop_first(), k, p)
    }
}

/// Append `t` to every candidate tuple.
pub open spec fn append_each(cands: Seq<Seq<TypeV>>, t: TypeV) -> Seq<Seq<TypeV>> {
    Seq::new(cands.len(), |i: int| cands[i].push(t))
}

/// Wrap each candidate item list in a tuple shape.
pub open spec fn tuples_of(cands: Seq<Seq<TypeV>>) -> Seq<TypeV> {
    Seq::new(cands.len(), |i: int| TypeV::Tuple(TupleV { items: cands[i], rest: Option::None }))
}

/// The conversion override target for the active direction, if any: `into`
/// then `try_into` when serializing, `from` then `try_from` when
/// deserializing.
pub open spec fn conversion_target(ca: ContainerAttrsV, o: ShapeOptions) -> Option<Box<TyV>> {
    if o.is_serialize_spec() {
        if ca.into is Some {
            ca.into
        } else {
            ca.try_into
        }
    } else {
        if ca.from is Some {
            ca.from
        } else {
            ca.try_from
        }
    }
}

// ===================================================================
// The derivation itself
// ===================================================================

/// The shape of a member type for one direction.  This is the resolution
/// protocol: built-in rules for primitives, wrappers and containers, and
/// the derivation rules for struct and enum descriptors.
pub open spec fn resolve_spec(ty: TyV, o: ShapeOptions) -> TypeV
    decreases ty, 3int,
{
    match ty {
        TyV::String => TypeV::String,
        TyV::Number => TypeV::Number,
        TyV::Boolean => TypeV::Boolean,
        TyV::Unit => TypeV::Null,
        TyV::Optional(t) => optional_wrap(resolve_spec(*t, o), o),
        TyV::Wrapper(t) => resolve_spec(*t, o),
        TyV::List(t) => TypeV::Array(ArrayV { item: Box::new(resolve_spec(*t, o)) }),
        TyV::Dict(k, v) => TypeV::Record(
            RecordV {
                optional: true,
                readonly: false,
                key: Box::new(resolve_spec(*k, o)),
                value: Box::new(resolve_spec(*v, o)),
            },
        ),
        TyV::FixedArray(t, n) => {
            let item = resolve_spec(*t, o);
            TypeV::Tuple(TupleV { items: Seq::new(n, |i: int| item), rest: Option::None })
        },
        TyV::Tuple(ts) => TypeV::Tuple(TupleV { items: resolve_each(ts, o), rest: Option::None }),
        TyV::Custom(s) => TypeV::Custom(s),
        TyV::Struct(sd) => {
            match conversion_target(sd.attrs, o) {
                Option::Some(t) => resolve_spec(*t, o),
                Option::None => fields_shape_spec(sd.attrs, sd.fields, o),
            }
        },
        TyV::Enum(ed) => {
            match conversion_target(ed.attrs, o) {
                Option::Some(t) => resolve_spec(*t, o),
                Option::None => enum_shape_spec(ed.attrs, ed.variants, o),
            }
        },
    }
}

/// The shapes of a list of member types, elementwise.
pub open spec fn resolve_each(ts: Seq<TyV>, o: ShapeOptions) -> Seq<TypeV>
    decreases ts, 4int,
{
    if ts.len() == 0 {
        Seq::empty()
    } else {
        seq![resolve_spec(ts.first(), o)] + resolve_each(ts.drop_first(), o)
    }
}

/// The shape of a struct body (or of a variant payload, when `va` names
/// the variant).
pub open spec fn fields_shape_spec(ca: ContainerAttrsV, fields: FieldsV, o: ShapeOptions) -> TypeV
    decreases fields, 3int,
{
    match fields {
        FieldsV::Unit => TypeV::Null,
        FieldsV::Named(fs) => named_shape_spec(ca, Option::None, fs, o),
        FieldsV::Unnamed(fs) => unnamed_shape_spec(ca, fs, o),
    }
}

/// The shape of a named-field body: an empty field list is the empty
/// object; a transparent container is its single field; otherwise the
/// object over the plain fields with every flattened field folded in.
pub open spec fn named_shape_spec(
    ca: ContainerAttrsV,
    va: Option<VariantAttrsV>,
    fs: Seq<NamedFieldV>,
    o: ShapeOptions,
) -> TypeV
    decreases fs, 2int,
{
    if fs.len() == 0 {
        TypeV::Object(ObjectV { properties: Seq::empty() })
    } else if ca.transparent {
        resolve_spec(fs.first().ty, o)
    } else {
        let base = TypeV::Object(
            ObjectV { properties: named_props_spec(Seq::empty(), ca, va, fs, o) },
        );
        flatten_fold_spec(base, ca, fs, o)
    }
}

/// Fold the plain (non-flattened, non-skipped) fields into properties, in
/// declaration order.
pub open spec fn named_props_spec(
    acc: Seq<(Seq<char>, PropertyV)>,
    ca: ContainerAttrsV,
    va: Option<VariantAttrsV>,
    fs: Seq<NamedFieldV>,
    o: ShapeOptions,
) -> Seq<(Seq<char>, PropertyV)>
    decreases fs, 1int,
{
    if fs.len() == 0 {
        acc
    } else {
        let f = fs.first();
        let acc2 = if f.attrs.skip || f.attrs.flatten {
            acc
        } else if field_included_spec(f, o) {
            props_insert(
                acc,
                field_name_spec(f, ca, va, o),
                PropertyV {
                    readonly: false,
                    optional: field_optional_spec(f, ca, o),
                    ty: resolve_spec(f.ty, o),
                },
            )
        } else {
            acc
        };
        named_props_spec(acc2, ca, va, fs.drop_first(), o)
    }
}

/// Fold every flattened field into the accumulated shape with an
/// intersection; a conditionally absent one is unioned with undefined
/// first.
pub open spec fn flatten_fold_spec(
    acc: TypeV,
    ca: ContainerAttrsV,
    fs: Seq<NamedFieldV>,
    o: ShapeOptions,
) -> TypeV
    decreases fs, 1int,
{
    if fs.len() == 0 {
        acc
    } else {
        let f = fs.first();
        let acc2 = if !f.attrs.skip && f.attrs.flatten {
            let flat = resolve_spec(f.ty, o);
            if o.is_serialize_spec() {
                if f.attrs.skip_serializing {
                    acc
                } else if f.attrs.skip_serializing_if {
                    TypeV::And(seq![acc, TypeV::Or(seq![TypeV::Undefined, flat])])
                } else {
                    TypeV::And(seq![acc, flat])
                }
            } else {
                if f.attrs.skip_deserializing {
                    acc
                } else if f.attrs.default || ca.default {
                    TypeV::And(seq![acc, TypeV::Or(seq![TypeV::Undefined, flat])])
                } else {
                    TypeV::And(seq![acc, flat])
                }
            }
        } else {
            acc
        };
        flatten_fold_spec(acc2, ca, fs.drop_first(), o)
    }
}

/// The shape of a positional body.  A single field resolves bare, with
/// skip and default rules expressed on the field itself; several fields
/// build the candidate tuples.
pub open spec fn unnamed_shape_spec(ca: ContainerAttrsV, fs: Seq<PosFieldV>, o: ShapeOptions) -> TypeV
    decreases fs, 2int,
{
    if fs.len() == 1 {
        let f = fs.first();
        if f.attrs.skip {
            TypeV::Tuple(TupleV { items: Seq::empty(), rest: Option::None })
        } else {
            let inner = resolve_spec(f.ty, o);
            if o.is_serialize_spec() {
                if f.attrs.skip_serializing {
                    TypeV::Null
                } else if f.attrs.skip_serializing_if {
                    TypeV::Or(seq![inner, TypeV::Undefined])
                } else {
                    inner
                }
            } else {
                if f.attrs.skip_deserializing {
                    TypeV::Or(seq![TypeV::Undefined, TypeV::Null])
                } else if f.attrs.default || ca.default {
                    TypeV::Or(seq![inner, TypeV::Undefined])
                } else {
                    inner
                }
            }
        }
    } else {
        let cands = cand_fold_spec(seq![Seq::empty()], ca, fs, o);
        if cands.len() == 1 {
            TypeV::Tuple(TupleV { items: cands[0], rest: Option::None })
        } else {
            TypeV::Or(tuples_of(cands))
        }
    }
}

/// Grow the candidate tuples left to right.  A required field extends every
/// candidate.  When serializing, a conditionally skipped field keeps every
/// candidate and appends an extended copy of each; when deserializing, a
/// defaulted field appends an extended copy of the last candidate only,
/// which yields one new arity per trailing defaulted field.
pub open spec fn cand_fold_spec(
    cands: Seq<Seq<TypeV>>,
    ca: ContainerAttrsV,
    fs: Seq<PosFieldV>,
    o: ShapeOptions,
) -> Seq<Seq<TypeV>>
    decreases fs, 1int,
{
    if fs.len() == 0 {
        cands
    } else {
        let f = fs.first();
        let cands2 = if f.attrs.skip {
            cands
        } else {
            let t = resolve_spec(f.ty, o);
            if o.is_serialize_spec() {
                if f.attrs.skip_serializing {
                    cands
                } else if f.attrs.skip_serializing_if {
                    cands + append_each(cands, t)
                } else {
                    append_each(cands, t)
                }
            } else {
                if f.attrs.skip_deserializing {
                    cands
                } else if f.attrs.default || ca.default {
                    cands.push(cands.last().push(t))
                } else {
                    cands.update(cands.len() - 1, cands.last().push(t))
                }
            }
        };
        cand_fold_spec(cands2, ca, fs.drop_first(), o)
    }
}

/// The shape of an enum body: the union of its live variants, or `Never`
/// when none is live for the active direction.
pub open spec fn enum_shape_spec(ca: ContainerAttrsV, vs: Seq<VariantDefV>, o: ShapeOptions) -> TypeV
    decreases vs, 3int,
{
    let ts = variant_types_spec(ca, vs, o);
    if ts.len() == 0 {
        TypeV::Never
    } else {
        TypeV::Or(ts)
    }
}

/// The shapes of the variants that are live for the active direction, in
/// declaration order.
pub open spec fn variant_types_spec(
    ca: ContainerAttrsV,
    vs: Seq<VariantDefV>,
    o: ShapeOptions,
) -> Seq<TypeV>
    decreases vs, 2int,
{
    if vs.len() == 0 {
        Seq::empty()
    } else {
        let v = vs.first();
        let rest = variant_types_spec(ca, vs.drop_first(), o);
        if v.attrs.skip {
            rest
        } else if (o.is_serialize_spec() && !v.attrs.skip_serializing) || (o.is_deserialize_spec()
            && !v.attrs.skip_deserializing) {
            seq![variant_type_spec(ca, v, o)] + rest
        } else {
            rest
        }
    }
}

/// One variant's shape: its payload combined with its discriminant per the
/// container's tagging mode.
pub open spec fn variant_type_spec(ca: ContainerAttrsV, v: VariantDefV, o: ShapeOptions) -> TypeV
    decreases v, 1int,
{
    let name = variant_name_spec(v, ca, o);
    match v.fields {
        FieldsV::Unit => {
            if v.attrs.untagged || ca.untagged {
                TypeV::Null
            } else {
                match ca.tag {
                    Option::Some(tag) => tag_object(tag, name),
                    Option::None => TypeV::Literal(LiteralV::String(name)),
                }
            }
        },
        FieldsV::Named(fs) => join_enum_spec(
            named_shape_spec(ca, Option::Some(v.attrs), fs, o),
            name,
            v.attrs,
            ca,
        ),
        FieldsV::Unnamed(fs) => join_enum_spec(unnamed_shape_spec(ca, fs, o), name, v.attrs, ca),
    }
}

/// Combine a variant payload with its discriminant: untagged leaves the
/// payload alone; a tag without content intersects the tag object with the
/// payload; a tag with content puts both under their own keys; the default
/// wraps the payload under the discriminant as sole key.
pub open spec fn join_enum_spec(
    payload: TypeV,
    name: Seq<char>,
    va: VariantAttrsV,
    ca: ContainerAttrsV,
) -> TypeV {
    if va.untagged || ca.untagged {
        payload
    } else {
        match ca.tag {
            Option::Some(tag) => {
                match ca.content {
                    Option::Some(content) => TypeV::Object(
                        ObjectV {
                            properties: seq![
                                (tag, plain_prop(TypeV::Literal(LiteralV::String(name)))),
                                (content, plain_prop(payload)),
                            ],
                        },
                    ),
                    Option::None => TypeV::And(seq![tag_object(tag, name), payload]),
                }
            },
            Option::None => TypeV::Object(ObjectV { properties: seq![(name, plain_prop(payload))] }),
        }
    }
}

// ===================================================================
// Validation
// ===================================================================

/// The derivation-time failures: a transparent container without exactly
/// one field, and a positional field without a default declared after a
/// defaulted one.
#[derive(Debug, Clone, Copy, PartialEq, Eq, Structural)]
pub enum DeriveError {
    TransparentNotSingleField,
    DefaultFieldNotLast,
}

impl DeriveError {
    /// The failure, in words, as a maintainer reports it at the offending
    /// declaration.
    pub open spec fn message_spec(self) -> Seq<char> {
        match self {
            DeriveError::TransparentNotSingleField => "transparent structs can only have one field"@,
            DeriveError::DefaultFieldNotLast => "tuple field with default attr must be the last one or followed by other fields with default attr"@,
        }
    }

    /// The failure, in words.
    pub fn message(&self) -> (r: String)
        ensures
            r@ == self.message_spec(),
    {
        match self {
            DeriveError::TransparentNotSingleField => String::from_str(
                "transparent structs can only have one field",
            ),
            DeriveError::DefaultFieldNotLast => String::from_str(
                "tuple field with default attr must be the last one or followed by other fields with default attr",
            ),
        }
    }
}

pub open spec fn err_or_else(a: Option<DeriveError>, b: Option<DeriveError>) -> Option<DeriveError> {
    if a is Some {
        a
    } else {
        b
    }
}

/// The first derivation-time failure in a member-type tree, in declaration
/// order; `None` means the whole tree is well formed.
pub open spec fn ty_err(ty: TyV) -> Option<DeriveError>
    decreases ty, 3int,
{
    match ty {
        TyV::String => Option::None,
        TyV::Number => Option::None,
        TyV::Boolean => Option::None,
        TyV::Unit => Option::None,
        TyV::Optional(t) => ty_err(*t),
        TyV::Wrapper(t) => ty_err(*t),
        TyV::List(t) => ty_err(*t),
        TyV::Dict(k, v) => err_or_else(ty_err(*k), ty_err(*v)),
        TyV::FixedArray(t, n) => ty_err(*t),
        TyV::Tuple(ts) => tys_err(ts),
        TyV::Custom(s) => Option::None,
        TyV::Struct(sd) => err_or_else(
            fields_err(sd.attrs, sd.fields),
            convs_err(sd.attrs),
        ),
        TyV::Enum(ed) => err_or_else(
            variants_err(ed.attrs, ed.variants),
            convs_err(ed.attrs),
        ),
    }
}

pub open spec fn tys_err(ts: Seq<TyV>) -> Option<DeriveError>
    decreases ts, 4int,
{
    if ts.len() == 0 {
        Option::None
    } else {
        err_or_else(ty_err(ts.first()), tys_err(ts.drop_first()))
    }
}

/// Check one field list: the transparent rule for named fields, the
/// trailing-default rule for positional ones, then every member type.
pub open spec fn fields_err(ca: ContainerAttrsV, fields: FieldsV) -> Option<DeriveError>
    decreases fields, 3int,
{
    match fields {
        FieldsV::Unit => Option::None,
        FieldsV::Named(fs) => {
            if ca.transparent && fs.len() != 1 {
                Option::Some(DeriveError::TransparentNotSingleField)
            } else {
                named_fields_err(fs)
            }
        },
        FieldsV::Unnamed(fs) => {
            if fs.len() >= 2 {
                err_or_else(pos_default_err(fs, false), pos_fields_err(fs))
            } else {
                pos_fields_err(fs)
            }
        },
    }
}

pub open spec fn named_fields_err(fs: Seq<NamedFieldV>) -> Option<DeriveError>
    decreases fs, 2int,
{
    if fs.len() == 0 {
        Option::None
    } else {
        err_or_else(ty_err(fs.first().ty), named_fields_err(fs.drop_first()))
    }
}

pub open spec fn pos_fields_err(fs: Seq<PosFieldV>) -> Option<DeriveError>
    decreases fs, 2int,
{
    if fs.len() == 0 {
        Option::None
    } else {
        err_or_else(ty_err(fs.first().ty), pos_fields_err(fs.drop_first()))
    }
}

/// Among the fields that are not unconditionally skipped, a field without
/// its own default must not follow one with a default.
pub open spec fn pos_default_err(fs: Seq<PosFieldV>, prev_default: bool) -> Option<DeriveError>
    decreases fs,
{
    if fs.len() == 0 {
        Option::None
    } else {
        let f = fs.first();
        if f.attrs.skip {
            pos_default_err(fs.drop_first(), prev_default)
        } else if !f.attrs.default && prev_default {
            Option::Some(DeriveError::DefaultFieldNotLast)
        } else {
            pos_default_err(fs.drop_first(), f.attrs.default)
        }
    }
}

pub open spec fn variants_err(ca: ContainerAttrsV, vs: Seq<VariantDefV>) -> Option<DeriveError>
    decreases vs, 4int,
{
    if vs.len() == 0 {
        Option::None
    } else {
        err_or_else(fields_err(ca, vs.first().fields), variants_err(ca, vs.drop_first()))
    }
}

/// Check the conversion override targets.
pub open spec fn convs_err(ca: ContainerAttrsV) -> Option<DeriveError>
    decreases ca, 0int,
{
    err_or_else(
        match ca.from {
            Option::Some(t) => ty_err(*t),
            Option::None => Option::None,
        },
        err_or_else(
            match ca.try_from {
                Option::Some(t) => ty_err(*t),
                Option::None => Option::None,
            },
            err_or_else(
                match ca.into {
                    Option::Some(t) => ty_err(*t),
                    Option::None => Option::None,
                },
                match ca.try_into {
                    Option::Some(t) => ty_err(*t),
                    Option::None => Option::None,
                },
            ),
        ),
    )
}


// ===================================================================
// Validation, executable
// ===================================================================

/// The model of an optional borrowed variant-annotation set.
pub open spec fn view_opt_va(va: Option<&VariantAttrs>) -> Option<VariantAttrsV> {
    match va {
        Option::None => Option::None,
        Option::Some(v) => Option::Some(v.view()),
    }
}

/// Check a member-type tree for the derivation-time failures.
pub fn validate(ty: &Ty) -> (r: Option<DeriveError>)
    ensures
        r == ty_err(ty.view()),
    decreases ty, 3int,
{
    match ty {
        Ty::String => Option::None,
        Ty::Number => Option::None,
        Ty::Boolean => Option::None,
        Ty::Unit => Option::None,
        Ty::Optional(t) => validate(t),
        Ty::Wrapper(t) => validate(t),
        Ty::List(t) => validate(t),
        Ty::Dict(k, v) => {
            let a = validate(k);
            if a.is_some() {
                a
            } else {
                validate(v)
            }
        },
        Ty::FixedArray(t, _n) => validate(t),
        Ty::Tuple(ts) => validate_tys(ts.as_slice()),
        Ty::Custom(_s) => Option::None,
        Ty::Struct(sd) => {
            let a = validate_fields(&sd.attrs, &sd.fields);
            let r = if a.is_some() {
                a
            } else {
                validate_convs(&sd.attrs)
            };
            proof {
                assert(ty.view() == TyV::Struct(Box::new(sd.view())));
                assert(sd.view().attrs == sd.attrs.view());
                assert(sd.view().fields == sd.fields.view());
                assert(ty_err(ty.view()) == err_or_else(
                    fields_err(sd.view().attrs, sd.view().fields),
                    convs_err(sd.view().attrs),
                ));
                assert(r == ty_err(ty.view()));
            }
            r
        },
        Ty::Enum(ed) => {
            let a = validate_variants(&ed.attrs, ed.variants.as_slice());
            let r = if a.is_some() {
                a
            } else {
                validate_convs(&ed.attrs)
            };
            proof {
                assert(ty.view() == TyV::Enum(Box::new(ed.view())));
                assert(ed.view().attrs == ed.attrs.view());
                assert(ed.view().variants == view_variants(ed.variants@));
                assert(r == ty_err(ty.view()));
            }
            r
        },
    }
}

fn validate_tys(ts: &[Ty]) -> (r: Option<DeriveError>)
    ensures
        r == tys_err(view_tys(ts@)),
    decreases ts@, 4int,
{
    if ts.len() == 0 {
        proof {
            assert(view_tys(ts@) =~= Seq::<TyV>::empty());
        }
        Option::None
    } else {
        proof {
            assert(decreases_to!(ts@ => ts@[0]));
            assert(view_tys(ts@).first() == ts@[0].view());
            assert(view_tys(ts@).drop_first() =~= view_tys(ts@.drop_first())) by {
                lemma_view_tys(ts@);
                lemma_view_tys(ts@.drop_first());
            }
        }
        let a = validate(slice_index_get(ts, 0));
        if a.is_some() {
            a
        } else {
            let rest = slice_subrange(ts, 1, ts.len());
            proof {
                assert(rest@ =~= ts@.drop_first());
            }
            validate_tys(rest)
        }
    }
}

fn validate_fields(ca: &ContainerAttrs, fields: &Fields) -> (r: Option<DeriveError>)
    ensures
        r == fields_err(ca.view(), fields.view()),
    decreases fields, 3int,
{
    match fields {
        Fields::Unit => Option::None,
        Fields::Named(fs) => {
            if ca.transparent.is_some() && fs.len() != 1 {
                proof {
                    lemma_view_named_fields(fs@);
                }
                Option::Some(DeriveError::TransparentNotSingleField)
            } else {
                proof {
                    lemma_view_named_fields(fs@);
                }
                validate_named_fields(fs.as_slice())
            }
        },
        Fields::Unnamed(fs) => {
            proof {
                lemma_view_pos_fields(fs@);
            }
            if fs.len() >= 2 {
                let a = validate_pos_default(fs.as_slice(), false);
                if a.is_some() {
                    a
                } else {
                    validate_pos_fields(fs.as_slice())
                }
            } else {
                validate_pos_fields(fs.as_slice())
            }
        },
    }
}

fn validate_named_fields(fs: &[NamedField]) -> (r: Option<DeriveError>)
    ensures
        r == named_fields_err(view_named_fields(fs@)),
    decreases fs@, 2int,
{
    if fs.len() == 0 {
        proof {
            assert(view_named_fields(fs@) =~= Seq::<NamedFieldV>::empty());
        }
        Option::None
    } else {
        proof {
            assert(decreases_to!(fs@ => fs@[0]));
            assert(decreases_to!(fs@[0] => fs@[0].ty));
            assert(view_named_fields(fs@).first() == fs@[0].view());
            assert(view_named_fields(fs@).drop_first() =~= view_named_fields(fs@.drop_first()))
                by {
                lemma_view_named_fields(fs@);
                lemma_view_named_fields(fs@.drop_first());
            }
        }
        let a = validate(&slice_index_get(fs, 0).ty);
        if a.is_some() {
            a
        } else {
            let rest = slice_subrange(fs, 1, fs.len());
            proof {
                assert(rest@ =~= fs@.drop_first());
            }
            validate_named_fields(rest)
        }
    }
}

fn validate_pos_fields(fs: &[PosField]) -> (r: Option<DeriveError>)
    ensures
        r == pos_fields_err(view_pos_fields(fs@)),
    decreases fs@, 2int,
{
    if fs.len() == 0 {
        proof {
            assert(view_pos_fields(fs@) =~= Seq::<PosFieldV>::empty());
        }
        Option::None
    } else {
        proof {
            assert(decreases_to!(fs@ => fs@[0]));
            assert(decreases_to!(fs@[0] => fs@[0].ty));
            assert(view_pos_fields(fs@).first() == fs@[0].view());
            assert(view_pos_fields(fs@).drop_first() =~= view_pos_fields(fs@.drop_first())) by {
                lemma_view_pos_fields(fs@);
                lemma_view_pos_fields(fs@.drop_first());
            }
        }
        let a = validate(&slice_index_get(fs, 0).ty);
        if a.is_some() {
            a
        } else {
            let rest = slice_subrange(fs, 1, fs.len());
            proof {
                assert(rest@ =~= fs@.drop_first());
            }
            validate_pos_fields(rest)
        }
    }
}

fn validate_pos_default(fs: &[PosField], prev_default: bool) -> (r: Option<DeriveError>)
    ensures
        r == pos_default_err(view_pos_fields(fs@), prev_default),
    decreases fs@,
{
    if fs.len() == 0 {
        proof {
            assert(view_pos_fields(fs@) =~= Seq::<PosFieldV>::empty());
        }
        Option::None
    } else {
        proof {
            assert(view_pos_fields(fs@).first() == fs@[0].view());
            assert(view_pos_fields(fs@).drop_first() =~= view_pos_fields(fs@.drop_first())) by {
                lemma_view_pos_fields(fs@);
                lemma_view_pos_fields(fs@.drop_first());
            }
        }
        let f = slice_index_get(fs, 0);
        let rest = slice_subrange(fs, 1, fs.len());
        proof {
            assert(rest@ =~= fs@.drop_first());
        }
        if f.attrs.skip.is_some() {
            validate_pos_default(rest, prev_default)
        } else if f.attrs.default.is_none() && prev_default {
            Option::Some(DeriveError::DefaultFieldNotLast)
        } else {
            validate_pos_default(rest, f.attrs.default.is_some())
        }
    }
}

fn validate_variants(ca: &ContainerAttrs, vs: &[VariantDef]) -> (r: Option<DeriveError>)
    ensures
        r == variants_err(ca.view(), view_variants(vs@)),
    decreases vs@, 4int,
{
    if vs.len() == 0 {
        proof {
            assert(view_variants(vs@) =~= Seq::<VariantDefV>::empty());
        }
        Option::None
    } else {
        proof {
            assert(decreases_to!(vs@ => vs@[0]));
            assert(decreases_to!(vs@[0] => vs@[0].fields));
            assert(view_variants(vs@).first() == vs@[0].view());
            assert(view_variants(vs@).drop_first() =~= view_variants(vs@.drop_first())) by {
                lemma_view_variants(vs@);
                lemma_view_variants(vs@.drop_first());
            }
        }
        let a = validate_fields(ca, &slice_index_get(vs, 0).fields);
        if a.is_some() {
            a
        } else {
            let rest = slice_subrange(vs, 1, vs.len());
            proof {
                assert(rest@ =~= vs@.drop_first());
            }
            validate_variants(ca, rest)
        }
    }
}

fn validate_convs(ca: &ContainerAttrs) -> (r: Option<DeriveError>)
    ensures
        r == convs_err(ca.view()),
    decreases ca, 0int,
{
    let a = match &ca.from {
        Option::Some(t) => validate(t),
        Option::None => Option::None,
    };
    if a.is_some() {
        return a;
    }
    let a = match &ca.try_from {
        Option::Some(t) => validate(t),
        Option::None => Option::None,
    };
    if a.is_some() {
        return a;
    }
    let a = match &ca.into {
        Option::Some(t) => validate(t),
        Option::None => Option::None,
    };
    if a.is_some() {
        return a;
    }
    match &ca.try_into {
        Option::Some(t) => validate(t),
        Option::None => Option::None,
    }
}



// ===================================================================
// Executable helpers
// ===================================================================

/// The models of the candidate tuples, elementwise.
pub open spec fn view_cands(s: Seq<Vec<Type>>) -> Seq<Seq<TypeV>>
    decreases s,
{
    if s.len() == 0 {
        Seq::empty()
    } else {
        seq![view_types(s.first()@)] + view_cands(s.drop_first())
    }
}

pub broadcast proof fn lemma_view_cands(s: Seq<Vec<Type>>)
    ensures
        (#[trigger] view_cands(s)).len() == s.len(),
        forall|i: int| 0 <= i < s.len() ==> #[trigger] view_cands(s)[i] == view_types(s[i]@),
    decreases s.len(),
{
    if s.len() > 0 {
        lemma_view_cands(s.drop_first());
        assert forall|i: int| 0 <= i < s.len() implies #[trigger] view_cands(s)[i]
            == view_types(s[i]@) by {
            if i == 0 {
                assert(view_cands(s)[0] == view_types(s.first()@));
            } else {
                assert(view_cands(s)[i] == view_cands(s.drop_first())[i - 1]);
                assert(s.drop_first()[i - 1] == s[i]);
            }
        }
    }
}

proof fn lemma_props_insert_found(
    ps: Seq<(Seq<char>, PropertyV)>,
    k: Seq<char>,
    p: PropertyV,
    j: int,
)
    requires
        0 <= j < ps.len(),
        ps[j].0 == k,
        forall|l: int| 0 <= l < j ==> (#[trigger] ps[l]).0 != k,
    ensures
        props_insert(ps, k, p) == ps.update(j, (k, p)),
    decreases ps.len(),
{
    if j == 0 {
        assert(ps.first().0 == k);
        assert(props_insert(ps, k, p) == seq![(k, p)] + ps.drop_first());
        assert(props_insert(ps, k, p) =~= ps.update(0, (k, p)));
    } else {
        assert(ps.first().0 != k) by {
            assert(ps[0].0 != k);
        }
        lemma_props_insert_found(ps.drop_first(), k, p, j - 1);
        assert(ps.drop_first()[j - 1] == ps[j]);
        assert forall|l: int| 0 <= l < j - 1 implies (#[trigger] ps.drop_first()[l]).0 != k by {
            assert(ps.drop_first()[l] == ps[l + 1]);
        }
        assert(props_insert(ps, k, p) == seq![ps.first()] + props_insert(ps.drop_first(), k, p));
        assert(props_insert(ps, k, p) =~= ps.update(j, (k, p)));
    }
}

pub proof fn lemma_props_insert_absent(ps: Seq<(Seq<char>, PropertyV)>, k: Seq<char>, p: PropertyV)
    requires
        forall|l: int| 0 <= l < ps.len() ==> (#[trigger] ps[l]).0 != k,
    ensures
        props_insert(ps, k, p) == ps.push((k, p)),
    decreases ps.len(),
{
    if ps.len() == 0 {
        assert(props_insert(ps, k, p) =~= ps.push((k, p)));
    } else {
        assert(ps.first().0 != k) by {
            assert(ps[0].0 != k);
        }
        assert forall|l: int| 0 <= l < ps.drop_first().len() implies (#[trigger] ps.drop_first()[l]).0
            != k by {
            assert(ps.drop_first()[l] == ps[l + 1]);
        }
        lemma_props_insert_absent(ps.drop_first(), k, p);
        assert(props_insert(ps, k, p) =~= ps.push((k, p)));
    }
}

/// Insert with insertion-ordered-map semantics: replace in place on an
/// existing key, append otherwise.
#[verifier::loop_isolation(false)]
fn props_insert_exec(props: Vec<(String, Property)>, k: String, p: Property) -> (r: Vec<
    (String, Property),
>)
    ensures
        view_props(r@) == props_insert(view_props(props@), k@, p.view()),
{
    let mut props = props;
    let ghost ps0 = view_props(props@);
    proof {
        lemma_view_props(props@);
    }
    let n = props.len();
    let mut j: usize = 0;
    while j < n
        invariant
            n == props.len(),
            j <= n,
            ps0 == view_props(props@),
            ps0.len() == n,
            forall|l: int| 0 <= l < n ==> #[trigger] ps0[l] == (props@[l].0@, props@[l].1.view()),
            forall|l: int| 0 <= l < j ==> (#[trigger] ps0[l]).0 != k@,
        decreases n - j,
    {
        if props[j].0 == k {
            proof {
                lemma_props_insert_found(ps0, k@, p.view(), j as int);
            }
            props[j] = (k, p);
            proof {
                lemma_view_props(props@);
                assert(view_props(props@) =~= ps0.update(j as int, (k@, p.view())));
            }
            return props;
        }
        j += 1;
    }
    proof {
        lemma_props_insert_absent(ps0, k@, p.view());
    }
    props.push((k, p));
    proof {
        lemma_view_props(props@);
        assert(view_props(props@) =~= ps0.push((k@, p.view())));
    }
    props
}

fn mk_or2(a: Type, b: Type) -> (r: Type)
    ensures
        r.view() == TypeV::Or(seq![a.view(), b.view()]),
{
    let mut v: Vec<Type> = Vec::new();
    let ghost av = a.view();
    let ghost bv = b.view();
    v.push(a);
    v.push(b);
    let r = Type::Or(v);
    proof {
        lemma_view_types(v@);
        assert(view_types(v@) =~= seq![av, bv]);
    }
    r
}

fn mk_or3(a: Type, b: Type, c: Type) -> (r: Type)
    ensures
        r.view() == TypeV::Or(seq![a.view(), b.view(), c.view()]),
{
    let mut v: Vec<Type> = Vec::new();
    let ghost av = a.view();
    let ghost bv = b.view();
    let ghost cv = c.view();
    v.push(a);
    v.push(b);
    v.push(c);
    let r = Type::Or(v);
    proof {
        lemma_view_types(v@);
        assert(view_types(v@) =~= seq![av, bv, cv]);
    }
    r
}

fn mk_and2(a: Type, b: Type) -> (r: Type)
    ensures
        r.view() == TypeV::And(seq![a.view(), b.view()]),
{
    let mut v: Vec<Type> = Vec::new();
    let ghost av = a.view();
    let ghost bv = b.view();
    v.push(a);
    v.push(b);
    let r = Type::And(v);
    proof {
        lemma_view_types(v@);
        assert(view_types(v@) =~= seq![av, bv]);
    }
    r
}

/// Wrap an optional-valued member's shape per the active switches.
fn optional_wrap_exec(inner: Type, o: &ShapeOptions) -> (r: Type)
    ensures
        r.view() == optional_wrap(inner.view(), *o),
{
    if o.option_add_null && o.option_add_undefined {
        mk_or3(inner, Type::Null, Type::Undefined)
    } else if o.option_add_null {
        mk_or2(inner, Type::Null)
    } else if o.option_add_undefined {
        mk_or2(inner, Type::Undefined)
    } else {
        inner
    }
}

fn plain_prop_exec(t: Type) -> (r: Property)
    ensures
        r.view() == plain_prop(t.view()),
{
    Property { optional: false, readonly: false, ty: t }
}

fn tag_object_exec(tag: &String, name: String) -> (r: Type)
    ensures
        r.view() == tag_object(tag@, name@),
{
    let ghost namev = name@;
    let lit = Type::Literal(Literal::String(name));
    let prop = plain_prop_exec(lit);
    let ghost propv = prop.view();
    let mut props: Vec<(String, Property)> = Vec::new();
    props.push((tag.clone(), prop));
    let r = Type::Object(Object { properties: props });
    proof {
        lemma_view_props(props@);
        assert(view_props(props@) =~= seq![(tag@, propv)]);
    }
    r
}

/// Apply a rename-all convention for the active direction.
fn apply_inflection_exec(c: &Option<Complex<Inflection>>, name: String, o: &ShapeOptions) -> (r:
    String)
    ensures
        r@ == apply_inflection_opt(crate::descriptor::view_opt_inflections(c), name@, *o),
{
    match c {
        Option::None => name,
        Option::Some(Complex::Single(i)) => i.apply(name.as_str()),
        Option::Some(Complex::Complex { serialize, deserialize }) => {
            if o.is_serialize() {
                match serialize {
                    Option::Some(i) => i.apply(name.as_str()),
                    Option::None => name,
                }
            } else {
                match deserialize {
                    Option::Some(i) => i.apply(name.as_str()),
                    Option::None => name,
                }
            }
        },
    }
}

/// Apply an explicit rename for the active direction.
fn apply_rename_exec(rn: &Option<Complex<String>>, current: String, o: &ShapeOptions) -> (r: String)
    ensures
        r@ == apply_rename_opt(crate::descriptor::view_opt_renames(rn), current@, *o),
{
    match rn {
        Option::None => current,
        Option::Some(Complex::Single(n)) => n.clone(),
        Option::Some(Complex::Complex { serialize, deserialize }) => {
            if o.is_serialize() {
                match serialize {
                    Option::Some(n) => n.clone(),
                    Option::None => current,
                }
            } else {
                match deserialize {
                    Option::Some(n) => n.clone(),
                    Option::None => current,
                }
            }
        },
    }
}

/// The object key a named field gets.
fn field_name_exec(
    f: &NamedField,
    ca: &ContainerAttrs,
    va: Option<&VariantAttrs>,
    o: &ShapeOptions,
) -> (r: String)
    ensures
        r@ == field_name_spec(f.view(), ca.view(), view_opt_va(va), *o),
{
    let base = match va {
        Option::None => apply_inflection_exec(&ca.rename_all, f.name.clone(), o),
        Option::Some(v) => {
            let tmp = apply_inflection_exec(&ca.rename_all_fields, f.name.clone(), o);
            apply_inflection_exec(&v.rename_all, tmp, o)
        },
    };
    apply_rename_exec(&f.attrs.rename, base, o)
}

/// The discriminant name a variant gets.
fn variant_name_exec(v: &VariantDef, ca: &ContainerAttrs, o: &ShapeOptions) -> (r: String)
    ensures
        r@ == variant_name_spec(v.view(), ca.view(), *o),
{
    let base = apply_inflection_exec(&ca.rename_all, v.name.clone(), o);
    apply_rename_exec(&v.attrs.rename, base, o)
}


// ===================================================================
// The derivation, executable
// ===================================================================

/// The shape of a member type for one direction, on a tree already known
/// to be well formed; [`resolve`] is the checked entry point.
#[verifier::loop_isolation(false)]
pub fn resolve_ty(ty: &Ty, o: &ShapeOptions) -> (r: Type)
    ensures
        r.view() == resolve_spec(ty.view(), *o),
    decreases ty, 3int,
{
    match ty {
        Ty::String => Type::String,
        Ty::Number => Type::Number,
        Ty::Boolean => Type::Boolean,
        Ty::Unit => Type::Null,
        Ty::Optional(t) => {
            let inner = resolve_ty(t, o);
            optional_wrap_exec(inner, o)
        },
        Ty::Wrapper(t) => resolve_ty(t, o),
        Ty::List(t) => {
            let item = resolve_ty(t, o);
            Type::Array(Array { item: Box::new(item) })
        },
        Ty::Dict(k, v) => {
            let key = resolve_ty(k, o);
            let value = resolve_ty(v, o);
            Type::Record(
                Record { optional: true, readonly: false, key: Box::new(key), value: Box::new(value) },
            )
        },
        Ty::FixedArray(t, n) => {
            let item = resolve_ty(t, o);
            let ghost itemv = item.view();
            let count = *n;
            let mut items: Vec<Type> = Vec::new();
            let mut i: usize = 0;
            while i < count
                invariant
                    i <= count,
                    items@.len() == i,
                    forall|j: int| 0 <= j < i ==> (#[trigger] items@[j]).view() == itemv,
                decreases count - i,
            {
                items.push(clone_type(&item));
                i += 1;
            }
            let r = Type::Tuple(Tuple { items, rest: Option::None });
            proof {
                lemma_view_types(items@);
                assert(view_types(items@) =~= Seq::new(count as nat, |j: int| itemv));
            }
            r
        },
        Ty::Tuple(ts) => {
            proof {
                assert(decreases_to!(*ty => *ts));
            }
            let items = resolve_each_exec(ts.as_slice(), o);
            Type::Tuple(Tuple { items, rest: Option::None })
        },
        Ty::Custom(s) => Type::Custom(s.clone()),
        Ty::Struct(sd) => {
            proof {
                assert(ty.view() == TyV::Struct(Box::new(sd.view())));
                assert(sd.view().attrs == sd.attrs.view());
                assert(sd.view().fields == sd.fields.view());
                assert(decreases_to!(*ty => **sd));
                assert(decreases_to!(**sd => sd.attrs));
                assert(decreases_to!(**sd => sd.fields));
            }
            if o.is_serialize() {
                match &sd.attrs.into {
                    Option::Some(t) => {
                        proof {
                            assert(decreases_to!(sd.attrs => sd.attrs.into));
                            assert(decreases_to!(sd.attrs.into => **t));
                        }
                        resolve_ty(t, o)
                    },
                    Option::None => {
                        match &sd.attrs.try_into {
                            Option::Some(t) => {
                                proof {
                                    assert(decreases_to!(sd.attrs => sd.attrs.try_into));
                                    assert(decreases_to!(sd.attrs.try_into => **t));
                                }
                                resolve_ty(t, o)
                            },
                            Option::None => fields_shape_exec(&sd.attrs, &sd.fields, o),
                        }
                    },
                }
            } else {
                match &sd.attrs.from {
                    Option::Some(t) => {
                        proof {
                            assert(decreases_to!(sd.attrs => sd.attrs.from));
                            assert(decreases_to!(sd.attrs.from => **t));
                        }
                        resolve_ty(t, o)
                    },
                    Option::None => {
                        match &sd.attrs.try_from {
                            Option::Some(t) => {
                                proof {
                                    assert(decreases_to!(sd.attrs => sd.attrs.try_from));
                                    assert(decreases_to!(sd.attrs.try_from => **t));
                                }
                                resolve_ty(t, o)
                            },
                            Option::None => fields_shape_exec(&sd.attrs, &sd.fields, o),
                        }
                    },
                }
            }
        },
        Ty::Enum(ed) => {
            proof {
                assert(ty.view() == TyV::Enum(Box::new(ed.view())));
                assert(ed.view().attrs == ed.attrs.view());
                assert(ed.view().variants == view_variants(ed.variants@));
                assert(decreases_to!(*ty => **ed));
                assert(decreases_to!(**ed => ed.attrs));
                assert(decreases_to!(**ed => ed.variants));
            }
            if o.is_serialize() {
                match &ed.attrs.into {
                    Option::Some(t) => {
                        proof {
                            assert(decreases_to!(ed.attrs => ed.attrs.into));
                            assert(decreases_to!(ed.attrs.into => **t));
                        }
                        resolve_ty(t, o)
                    },
                    Option::None => {
                        match &ed.attrs.try_into {
                            Option::Some(t) => {
                                proof {
                                    assert(decreases_to!(ed.attrs => ed.attrs.try_into));
                                    assert(decreases_to!(ed.attrs.try_into => **t));
                                }
                                resolve_ty(t, o)
                            },
                            Option::None => enum_shape_exec(&ed.attrs, ed.variants.as_slice(), o),
                        }
                    },
                }
            } else {
                match &ed.attrs.from {
                    Option::Some(t) => {
                        proof {
                            assert(decreases_to!(ed.attrs => ed.attrs.from));
                            assert(decreases_to!(ed.attrs.from => **t));
                        }
                        resolve_ty(t, o)
                    },
                    Option::None => {
                        match &ed.attrs.try_from {
                            Option::Some(t) => {
                                proof {
                                    assert(decreases_to!(ed.attrs => ed.attrs.try_from));
                                    assert(decreases_to!(ed.attrs.try_from => **t));
                                }
                                resolve_ty(t, o)
                            },
                            Option::None => enum_shape_exec(&ed.attrs, ed.variants.as_slice(), o),
                        }
                    },
                }
            }
        },
    }
}

/// The shapes of a list of member types, elementwise.
fn resolve_each_exec(ts: &[Ty], o: &ShapeOptions) -> (r: Vec<Type>)
    ensures
        view_types(r@) == resolve_each(view_tys(ts@), *o),
    decreases ts@, 4int,
{
    if ts.len() == 0 {
        let r: Vec<Type> = Vec::new();
        proof {
            assert(view_tys(ts@) =~= Seq::<TyV>::empty());
            assert(view_types(r@) =~= resolve_each(view_tys(ts@), *o));
        }
        r
    } else {
        proof {
            assert(decreases_to!(ts@ => ts@[0]));
            assert(view_tys(ts@).first() == ts@[0].view());
            assert(view_tys(ts@).drop_first() =~= view_tys(ts@.drop_first())) by {
                lemma_view_tys(ts@);
                lemma_view_tys(ts@.drop_first());
            }
        }
        let head = resolve_ty(slice_index_get(ts, 0), o);
        let rest_slice = slice_subrange(ts, 1, ts.len());
        proof {
            assert(rest_slice@ =~= ts@.drop_first());
        }
        let mut rest = resolve_each_exec(rest_slice, o);
        let ghost headv = head.view();
        let ghost restseq = rest@;
        let ghost restv = view_types(rest@);
        let mut out: Vec<Type> = Vec::new();
        out.push(head);
        out.append(&mut rest);
        proof {
            lemma_view_types(out@);
            lemma_view_types(restseq);
            assert(out@ == seq![head] + restseq);
            assert forall|i: int| 0 <= i < out@.len() implies #[trigger] view_types(out@)[i]
                == (seq![headv] + restv)[i] by {
                if i > 0 {
                    assert(out@[i] == restseq[i - 1]);
                }
            }
            assert(view_types(out@) =~= seq![headv] + restv);
        }
        out
    }
}

/// The shape of a struct body or variant payload.
fn fields_shape_exec(ca: &ContainerAttrs, fields: &Fields, o: &ShapeOptions) -> (r: Type)
    ensures
        r.view() == fields_shape_spec(ca.view(), fields.view(), *o),
    decreases fields, 3int,
{
    match fields {
        Fields::Unit => Type::Null,
        Fields::Named(fs) => named_shape_exec(ca, Option::None, fs.as_slice(), o),
        Fields::Unnamed(fs) => unnamed_shape_exec(ca, fs.as_slice(), o),
    }
}

/// The shape of a named-field body.
fn named_shape_exec(
    ca: &ContainerAttrs,
    va: Option<&VariantAttrs>,
    fs: &[NamedField],
    o: &ShapeOptions,
) -> (r: Type)
    ensures
        r.view() == named_shape_spec(ca.view(), view_opt_va(va), view_named_fields(fs@), *o),
    decreases fs@, 2int,
{
    proof {
        lemma_view_named_fields(fs@);
    }
    if fs.len() == 0 {
        let r = Type::Object(Object { properties: Vec::new() });
        proof {
            assert(view_props(Seq::<(String, Property)>::empty()) =~= Seq::<(
                Seq<char>,
                PropertyV,
            )>::empty());
            assert(r.view() =~= named_shape_spec(ca.view(), view_opt_va(va), view_named_fields(fs@), *o));
        }
        r
    } else if ca.transparent.is_some() {
        proof {
            assert(decreases_to!(fs@ => fs@[0]));
            assert(decreases_to!(fs@[0] => fs@[0].ty));
            assert(view_named_fields(fs@).first() == fs@[0].view());
        }
        resolve_ty(&slice_index_get(fs, 0).ty, o)
    } else {
        let props = named_props_exec(Vec::new(), ca, va, fs, o);
        let base = Type::Object(Object { properties: props });
        proof {
            assert(view_props(Seq::<(String, Property)>::empty()) =~= Seq::<(
                Seq<char>,
                PropertyV,
            )>::empty());
            assert(base.view() == TypeV::Object(
                ObjectV {
                    properties: named_props_spec(
                        Seq::empty(),
                        ca.view(),
                        view_opt_va(va),
                        view_named_fields(fs@),
                        *o,
                    ),
                },
            ));
        }
        flatten_fold_exec(base, ca, fs, o)
    }
}

/// Fold the plain fields into properties, left to right.
fn named_props_exec(
    props: Vec<(String, Property)>,
    ca: &ContainerAttrs,
    va: Option<&VariantAttrs>,
    fs: &[NamedField],
    o: &ShapeOptions,
) -> (r: Vec<(String, Property)>)
    ensures
        view_props(r@) == named_props_spec(
            view_props(props@),
            ca.view(),
            view_opt_va(va),
            view_named_fields(fs@),
            *o,
        ),
    decreases fs@, 1int,
{
    if fs.len() == 0 {
        proof {
            assert(view_named_fields(fs@) =~= Seq::<NamedFieldV>::empty());
        }
        props
    } else {
        let f = slice_index_get(fs, 0);
        proof {
            assert(decreases_to!(fs@ => fs@[0]));
            assert(decreases_to!(fs@[0] => fs@[0].ty));
            assert(view_named_fields(fs@).first() == fs@[0].view());
            assert(fs@[0].view().attrs == fs@[0].attrs.view());
            assert(view_named_fields(fs@).drop_first() =~= view_named_fields(fs@.drop_first()))
                by {
                lemma_view_named_fields(fs@);
                lemma_view_named_fields(fs@.drop_first());
            }
        }
        let included = (o.is_serialize() && f.attrs.skip_serializing.is_none()) || (
        o.is_deserialize() && f.attrs.skip_deserializing.is_none());
        let props2 = if f.attrs.skip.is_some() || f.attrs.flatten.is_some() {
            props
        } else if included {
            let name = field_name_exec(f, ca, va, o);
            let optional = if is_option(&f.ty) && o.option_is_optional {
                true
            } else if o.is_serialize() {
                f.attrs.skip_serializing_if.is_some()
            } else {
                f.attrs.default.is_some() || ca.default.is_some()
            };
            proof {
                assert(optional == field_optional_spec(fs@[0].view(), ca.view(), *o));
                assert(field_included_spec(fs@[0].view(), *o));
            }
            let ty = resolve_ty(&f.ty, o);
            let prop = Property { readonly: false, optional, ty };
            props_insert_exec(props, name, prop)
        } else {
            proof {
                assert(!field_included_spec(fs@[0].view(), *o));
            }
            props
        };
        let rest = slice_subrange(fs, 1, fs.len());
        proof {
            assert(rest@ =~= fs@.drop_first());
        }
        named_props_exec(props2, ca, va, rest, o)
    }
}

/// Fold the flattened fields into the accumulated shape, left to right.
fn flatten_fold_exec(acc: Type, ca: &ContainerAttrs, fs: &[NamedField], o: &ShapeOptions) -> (r:
    Type)
    ensures
        r.view() == flatten_fold_spec(acc.view(), ca.view(), view_named_fields(fs@), *o),
    decreases fs@, 1int,
{
    if fs.len() == 0 {
        proof {
            assert(view_named_fields(fs@) =~= Seq::<NamedFieldV>::empty());
        }
        acc
    } else {
        let f = slice_index_get(fs, 0);
        proof {
            assert(decreases_to!(fs@ => fs@[0]));
            assert(decreases_to!(fs@[0] => fs@[0].ty));
            assert(view_named_fields(fs@).first() == fs@[0].view());
            assert(fs@[0].view().attrs == fs@[0].attrs.view());
            assert(view_named_fields(fs@).drop_first() =~= view_named_fields(fs@.drop_first()))
                by {
                lemma_view_named_fields(fs@);
                lemma_view_named_fields(fs@.drop_first());
            }
        }
        let acc2 = if f.attrs.skip.is_none() && f.attrs.flatten.is_some() {
            let flat = resolve_ty(&f.ty, o);
            if o.is_serialize() {
                if f.attrs.skip_serializing.is_some() {
                    acc
                } else if f.attrs.skip_serializing_if.is_some() {
                    let opt = mk_or2(Type::Undefined, flat);
                    mk_and2(acc, opt)
                } else {
                    mk_and2(acc, flat)
                }
            } else {
                if f.attrs.skip_deserializing.is_some() {
                    acc
                } else if f.attrs.default.is_some() || ca.default.is_some() {
                    let opt = mk_or2(Type::Undefined, flat);
                    mk_and2(acc, opt)
                } else {
                    mk_and2(acc, flat)
                }
            }
        } else {
            acc
        };
        let rest = slice_subrange(fs, 1, fs.len());
        proof {
            assert(rest@ =~= fs@.drop_first());
        }
        flatten_fold_exec(acc2, ca, rest, o)
    }
}


/// The shape of a positional body.
fn unnamed_shape_exec(ca: &ContainerAttrs, fs: &[PosField], o: &ShapeOptions) -> (r: Type)
    ensures
        r.view() == unnamed_shape_spec(ca.view(), view_pos_fields(fs@), *o),
    decreases fs@, 2int,
{
    proof {
        lemma_view_pos_fields(fs@);
    }
    if fs.len() == 1 {
        let f = slice_index_get(fs, 0);
        proof {
            assert(decreases_to!(fs@ => fs@[0]));
            assert(decreases_to!(fs@[0] => fs@[0].ty));
            assert(view_pos_fields(fs@).first() == fs@[0].view());
            assert(fs@[0].view().attrs == fs@[0].attrs.view());
        }
        if f.attrs.skip.is_some() {
            let r = Type::Tuple(Tuple { items: Vec::new(), rest: Option::None });
            proof {
                assert(view_types(Seq::<Type>::empty()) =~= Seq::<TypeV>::empty());
                assert(r.view() =~= unnamed_shape_spec(ca.view(), view_pos_fields(fs@), *o));
            }
            r
        } else {
            let inner = resolve_ty(&f.ty, o);
            if o.is_serialize() {
                if f.attrs.skip_serializing.is_some() {
                    Type::Null
                } else if f.attrs.skip_serializing_if.is_some() {
                    mk_or2(inner, Type::Undefined)
                } else {
                    inner
                }
            } else {
                if f.attrs.skip_deserializing.is_some() {
                    mk_or2(Type::Undefined, Type::Null)
                } else if f.attrs.default.is_some() || ca.default.is_some() {
                    mk_or2(inner, Type::Undefined)
                } else {
                    inner
                }
            }
        }
    } else {
        let mut init: Vec<Vec<Type>> = Vec::new();
        init.push(Vec::new());
        proof {
            lemma_view_cands(init@);
            assert(view_types(Seq::<Type>::empty()) =~= Seq::<TypeV>::empty());
            assert(view_cands(init@) =~= seq![Seq::<TypeV>::empty()]);
        }
        let mut cands = cand_fold_exec(init, ca, fs, o);
        let ghost candsv = view_cands(cands@);
        proof {
            lemma_view_cands(cands@);
        }
        if cands.len() == 1 {
            let items = match cands.pop() {
                Option::Some(items) => items,
                Option::None => Vec::new(),
            };
            proof {
                assert(view_types(items@) == candsv[0]);
            }
            let r = Type::Tuple(Tuple { items, rest: Option::None });
            r
        } else {
            let n = cands.len();
            let mut out: Vec<Type> = Vec::new();
            let mut i: usize = 0;
            while i < n
                invariant
                    n == cands@.len(),
                    candsv == view_cands(cands@),
                    candsv.len() == n,
                    forall|l: int| 0 <= l < n ==> #[trigger] candsv[l] == view_types(cands@[l]@),
                    i <= n,
                    out@.len() == i,
                    forall|j: int| 0 <= j < i ==> (#[trigger] out@[j]).view() == TypeV::Tuple(
                        TupleV { items: candsv[j], rest: Option::None },
                    ),
                decreases n - i,
            {
                let items = clone_types(&cands[i]);
                proof {
                    assert(view_types(items@) == view_types(cands@[i as int]@));
                }
                out.push(Type::Tuple(Tuple { items, rest: Option::None }));
                i += 1;
            }
            let r = Type::Or(out);
            proof {
                lemma_view_types(out@);
                assert(view_types(out@) =~= tuples_of(candsv));
            }
            r
        }
    }
}

/// Append the resolved field shape to every candidate.
fn cands_append_all(cands: &Vec<Vec<Type>>, t: &Type) -> (r: Vec<Vec<Type>>)
    ensures
        view_cands(r@) == append_each(view_cands(cands@), t.view()),
        r@.len() == cands@.len(),
{
    let ghost candsv = view_cands(cands@);
    proof {
        lemma_view_cands(cands@);
    }
    let n = cands.len();
    let mut out: Vec<Vec<Type>> = Vec::new();
    let mut i: usize = 0;
    while i < n
        invariant
            n == cands@.len(),
            candsv == view_cands(cands@),
            candsv.len() == n,
            forall|l: int| 0 <= l < n ==> #[trigger] candsv[l] == view_types(cands@[l]@),
            i <= n,
            out@.len() == i,
            forall|j: int| 0 <= j < i ==> view_types((#[trigger] out@[j])@) == candsv[j].push(
                t.view(),
            ),
        decreases n - i,
    {
        let mut c = clone_types(&cands[i]);
        let ghost cseq = c@;
        let ghost cv = view_types(c@);
        c.push(clone_type(t));
        proof {
            lemma_view_types(c@);
            lemma_view_types(cseq);
            assert(view_types(c@) =~= cv.push(t.view()));
        }
        out.push(c);
        i += 1;
    }
    proof {
        lemma_view_cands(out@);
        assert(view_cands(out@) =~= append_each(candsv, t.view()));
    }
    out
}

/// Keep every candidate and also append an extended copy of each.
fn cands_branch_all(cands: Vec<Vec<Type>>, t: &Type) -> (r: Vec<Vec<Type>>)
    ensures
        view_cands(r@) == view_cands(cands@) + append_each(view_cands(cands@), t.view()),
        r@.len() == 2 * cands@.len(),
{
    let ghost candsv = view_cands(cands@);
    let mut appended = cands_append_all(&cands, t);
    let ghost appendedv = view_cands(appended@);
    proof {
        lemma_view_cands(cands@);
        lemma_view_cands(appended@);
    }
    let mut out = cands;
    out.append(&mut appended);
    proof {
        lemma_view_cands(out@);
        assert(view_cands(out@) =~= candsv + appendedv);
    }
    out
}

/// Append an extended copy of the last candidate.
fn cands_push_default(cands: Vec<Vec<Type>>, t: Type) -> (r: Vec<Vec<Type>>)
    requires
        cands@.len() >= 1,
    ensures
        view_cands(r@) == view_cands(cands@).push(view_cands(cands@).last().push(t.view())),
        r@.len() == cands@.len() + 1,
{
    let ghost candsv = view_cands(cands@);
    proof {
        lemma_view_cands(cands@);
    }
    let mut last = clone_types(&cands[cands.len() - 1]);
    let ghost lastseq = last@;
    let ghost lastv = view_types(last@);
    last.push(t);
    proof {
        lemma_view_types(last@);
        lemma_view_types(lastseq);
        assert(view_types(last@) =~= candsv.last().push(t.view()));
    }
    let mut out = cands;
    out.push(last);
    proof {
        lemma_view_cands(out@);
        assert(view_cands(out@) =~= candsv.push(candsv.last().push(t.view())));
    }
    out
}

/// Extend the last candidate in place.
fn cands_extend_last(cands: Vec<Vec<Type>>, t: Type) -> (r: Vec<Vec<Type>>)
    requires
        cands@.len() >= 1,
    ensures
        view_cands(r@) == view_cands(cands@).update(
            cands@.len() - 1,
            view_cands(cands@).last().push(t.view()),
        ),
        r@.len() == cands@.len(),
{
    let ghost candsv = view_cands(cands@);
    proof {
        lemma_view_cands(cands@);
    }
    let mut out = cands;
    let mut last = match out.pop() {
        Option::Some(l) => l,
        Option::None => Vec::new(),
    };
    let ghost lastseq = last@;
    let ghost lastv = view_types(last@);
    last.push(t);
    proof {
        lemma_view_types(last@);
        lemma_view_types(lastseq);
        assert(view_types(last@) =~= candsv.last().push(t.view()));
    }
    out.push(last);
    proof {
        lemma_view_cands(out@);
        assert(view_cands(out@) =~= candsv.update(candsv.len() - 1, candsv.last().push(t.view())));
    }
    out
}

/// Grow the candidate tuples over the fields, left to right.
fn cand_fold_exec(cands: Vec<Vec<Type>>, ca: &ContainerAttrs, fs: &[PosField], o: &ShapeOptions) -> (r:
    Vec<Vec<Type>>)
    requires
        cands@.len() >= 1,
    ensures
        view_cands(r@) == cand_fold_spec(view_cands(cands@), ca.view(), view_pos_fields(fs@), *o),
        r@.len() >= 1,
    decreases fs@, 1int,
{
    proof {
        lemma_view_cands(cands@);
    }
    if fs.len() == 0 {
        proof {
            assert(view_pos_fields(fs@) =~= Seq::<PosFieldV>::empty());
        }
        cands
    } else {
        let f = slice_index_get(fs, 0);
        proof {
            assert(decreases_to!(fs@ => fs@[0]));
            assert(decreases_to!(fs@[0] => fs@[0].ty));
            assert(view_pos_fields(fs@).first() == fs@[0].view());
            assert(fs@[0].view().attrs == fs@[0].attrs.view());
            assert(view_pos_fields(fs@).drop_first() =~= view_pos_fields(fs@.drop_first())) by {
                lemma_view_pos_fields(fs@);
                lemma_view_pos_fields(fs@.drop_first());
            }
        }
        let cands2 = if f.attrs.skip.is_some() {
            cands
        } else {
            let t = resolve_ty(&f.ty, o);
            if o.is_serialize() {
                if f.attrs.skip_serializing.is_some() {
                    cands
                } else if f.attrs.skip_serializing_if.is_some() {
                    cands_branch_all(cands, &t)
                } else {
                    cands_append_all(&cands, &t)
                }
            } else {
                if f.attrs.skip_deserializing.is_some() {
                    cands
                } else if f.attrs.default.is_some() || ca.default.is_some() {
                    cands_push_default(cands, t)
                } else {
                    cands_extend_last(cands, t)
                }
            }
        };
        let rest = slice_subrange(fs, 1, fs.len());
        proof {
            assert(rest@ =~= fs@.drop_first());
            lemma_view_cands(cands2@);
        }
        cand_fold_exec(cands2, ca, rest, o)
    }
}

/// The shape of an enum body.
fn enum_shape_exec(ca: &ContainerAttrs, vs: &[VariantDef], o: &ShapeOptions) -> (r: Type)
    ensures
        r.view() == enum_shape_spec(ca.view(), view_variants(vs@), *o),
    decreases vs@, 3int,
{
    let ts = variant_types_exec(ca, vs, o);
    if ts.len() == 0 {
        proof {
            lemma_view_types(ts@);
        }
        Type::Never
    } else {
        proof {
            lemma_view_types(ts@);
        }
        Type::Or(ts)
    }
}

/// The live variants' shapes, in declaration order.
fn variant_types_exec(ca: &ContainerAttrs, vs: &[VariantDef], o: &ShapeOptions) -> (r: Vec<Type>)
    ensures
        view_types(r@) == variant_types_spec(ca.view(), view_variants(vs@), *o),
    decreases vs@, 2int,
{
    if vs.len() == 0 {
        let r: Vec<Type> = Vec::new();
        proof {
            assert(view_variants(vs@) =~= Seq::<VariantDefV>::empty());
            assert(view_types(r@) =~= variant_types_spec(ca.view(), view_variants(vs@), *o));
        }
        r
    } else {
        let v = slice_index_get(vs, 0);
        proof {
            assert(decreases_to!(vs@ => vs@[0]));
            assert(view_variants(vs@).first() == vs@[0].view());
            assert(vs@[0].view().attrs == vs@[0].attrs.view());
            assert(view_variants(vs@).drop_first() =~= view_variants(vs@.drop_first())) by {
                lemma_view_variants(vs@);
                lemma_view_variants(vs@.drop_first());
            }
        }
        let rest_slice = slice_subrange(vs, 1, vs.len());
        proof {
            assert(rest_slice@ =~= vs@.drop_first());
        }
        let mut rest = variant_types_exec(ca, rest_slice, o);
        let ghost restv = view_types(rest@);
        if v.attrs.skip.is_some() {
            rest
        } else {
            let live = (o.is_serialize() && v.attrs.skip_serializing.is_none()) || (
            o.is_deserialize() && v.attrs.skip_deserializing.is_none());
            if live {
                let vt = variant_type_exec(ca, v, o);
                let ghost vtv = vt.view();
                let ghost restseq = rest@;
                let mut out: Vec<Type> = Vec::new();
                out.push(vt);
                out.append(&mut rest);
                proof {
                    lemma_view_types(out@);
                    lemma_view_types(restseq);
                    assert(out@ == seq![vt] + restseq);
                    assert forall|i: int| 0 <= i < out@.len() implies #[trigger] view_types(out@)[i]
                        == (seq![vtv] + restv)[i] by {
                        if i > 0 {
                            assert(out@[i] == restseq[i - 1]);
                        }
                    }
                    assert(view_types(out@) =~= seq![vtv] + restv);
                }
                out
            } else {
                rest
            }
        }
    }
}

/// One variant's shape.
fn variant_type_exec(ca: &ContainerAttrs, v: &VariantDef, o: &ShapeOptions) -> (r: Type)
    ensures
        r.view() == variant_type_spec(ca.view(), v.view(), *o),
    decreases v, 1int,
{
    let name = variant_name_exec(v, ca, o);
    proof {
        assert(decreases_to!(*v => v.fields));
        assert(v.view().fields == v.fields.view());
        assert(v.view().attrs == v.attrs.view());
    }
    match &v.fields {
        Fields::Unit => {
            if v.attrs.untagged.is_some() || ca.untagged.is_some() {
                Type::Null
            } else {
                match &ca.tag {
                    Option::Some(tag) => tag_object_exec(tag, name),
                    Option::None => Type::Literal(Literal::String(name)),
                }
            }
        },
        Fields::Named(fs) => {
            proof {
                assert(decreases_to!(v.fields => *fs));
            }
            let payload = named_shape_exec(ca, Option::Some(&v.attrs), fs.as_slice(), o);
            join_enum_exec(payload, name, &v.attrs, ca)
        },
        Fields::Unnamed(fs) => {
            proof {
                assert(decreases_to!(v.fields => *fs));
            }
            let payload = unnamed_shape_exec(ca, fs.as_slice(), o);
            join_enum_exec(payload, name, &v.attrs, ca)
        },
    }
}

/// Combine a variant payload with its discriminant per the tagging mode.
fn join_enum_exec(payload: Type, name: String, va: &VariantAttrs, ca: &ContainerAttrs) -> (r: Type)
    ensures
        r.view() == join_enum_spec(payload.view(), name@, va.view(), ca.view()),
{
    let ghost payloadv = payload.view();
    let ghost namev = name@;
    if va.untagged.is_some() || ca.untagged.is_some() {
        payload
    } else {
        match &ca.tag {
            Option::Some(tag) => {
                match &ca.content {
                    Option::Some(content) => {
                        let lit = Type::Literal(Literal::String(name));
                        let tag_prop = plain_prop_exec(lit);
                        let ghost tag_propv = tag_prop.view();
                        let payload_prop = plain_prop_exec(payload);
                        let ghost payload_propv = payload_prop.view();
                        let mut props: Vec<(String, Property)> = Vec::new();
                        props.push((tag.clone(), tag_prop));
                        props.push((content.clone(), payload_prop));
                        let r = Type::Object(Object { properties: props });
                        proof {
                            lemma_view_props(props@);
                            assert(view_props(props@) =~= seq![
                                (tag@, tag_propv),
                                (content@, payload_propv),
                            ]);
                        }
                        r
                    },
                    Option::None => {
                        let tagobj = tag_object_exec(tag, name);
                        mk_and2(tagobj, payload)
                    },
                }
            },
            Option::None => {
                let prop = plain_prop_exec(payload);
                let ghost propv = prop.view();
                let mut props: Vec<(String, Property)> = Vec::new();
                props.push((name, prop));
                let r = Type::Object(Object { properties: props });
                proof {
                    lemma_view_props(props@);
                    assert(view_props(props@) =~= seq![(namev, propv)]);
                }
                r
            },
        }
    }
}

/// Derive the shape of a member type for one direction.  A malformed
/// descriptor is rejected with its first derivation-time failure, exactly
/// as [`ty_err`] names it; a well-formed one resolves to
/// [`resolve_spec`]'s shape.
pub fn resolve(ty: &Ty, options: &ShapeOptions) -> (r: Result<Type, DeriveError>)
    ensures
        ty_err(ty.view()) is None ==> r is Ok && r->Ok_0.view() == resolve_spec(ty.view(), *options),
        ty_err(ty.view()) matches Some(e) ==> r == Result::<Type, DeriveError>::Err(e),
{
    match validate(ty) {
        Option::Some(e) => Result::Err(e),
        Option::None => Result::Ok(resolve_ty(ty, options)),
    }
}

} // verus!
