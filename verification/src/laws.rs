use vstd::prelude::*;
use crate::assignable::type_assignable;
use crate::descriptor::{ContainerAttrsV, FieldsV, NamedFieldV, PosFieldV, TyV, VariantAttrsV,
    VariantDefV};
use crate::json::{member_get, JsonV};
use crate::model::{LiteralV, ObjectV, PropertyV, TupleV, TypeV};
use crate::options::ShapeOptions;
use crate::resolve::{cand_fold_spec, conversion_target, field_included_spec, field_name_spec,
    field_optional_spec, flatten_fold_spec, named_props_spec, named_shape_spec, props_insert,
    resolve_each, resolve_spec, variant_name_spec, variant_type_spec, variant_types_spec};

verus! {

// ===================================================================
// Direction invariance of the built-in shapes
// ===================================================================

/// The built-in fragment of the resolution protocol: every member type
/// that is not a struct or enum descriptor.
pub open spec fn builtin_ty(ty: TyV) -> bool
    decreases ty,
{
    match ty {
        TyV::String => true,
        TyV::Number => true,
        TyV::Boolean => true,
        TyV::Unit => true,
        TyV::Optional(t) => builtin_ty(*t),
        TyV::Wrapper(t) => builtin_ty(*t),
        TyV::List(t) => builtin_ty(*t),
        TyV::Dict(k, v) => builtin_ty(*k) && builtin_ty(*v),
        TyV::FixedArray(t, _n) => builtin_ty(*t),
        TyV::Tuple(ts) => builtin_tys(ts),
        TyV::Custom(_) => true,
        TyV::Struct(_) => false,
        TyV::Enum(_) => false,
    }
}

pub open spec fn builtin_tys(ts: Seq<TyV>) -> bool
    decreases ts,
{
    if ts.len() == 0 {
        true
    } else {
        builtin_ty(ts.first()) && builtin_tys(ts.drop_first())
    }
}

/// Whether the optional-valued wrapper occurs anywhere in a member type.
pub open spec fn mentions_optional(ty: TyV) -> bool
    decreases ty,
{
    match ty {
        TyV::Optional(_) => true,
        TyV::Wrapper(t) => mentions_optional(*t),
        TyV::List(t) => mentions_optional(*t),
        TyV::Dict(k, v) => mentions_optional(*k) || mentions_optional(*v),
        TyV::FixedArray(t, _n) => mentions_optional(*t),
        TyV::Tuple(ts) => mentions_optional_list(ts),
        _ => false,
    }
}

pub open spec fn mentions_optional_list(ts: Seq<TyV>) -> bool
    decreases ts,
{
    if ts.len() == 0 {
        false
    } else {
        mentions_optional(ts.first()) || mentions_optional_list(ts.drop_first())
    }
}

/// A built-in shape resolves the same in both directions whenever the two
/// option sets treat optional-valued members alike: the direction only
/// ever matters to derived structs and enums, and to the optional-wrapper
/// rule.
pub proof fn lemma_builtin_direction_invariant(ty: TyV, o1: ShapeOptions, o2: ShapeOptions)
    requires
        builtin_ty(ty),
        o1.option_add_null == o2.option_add_null,
        o1.option_add_undefined == o2.option_add_undefined,
    ensures
        resolve_spec(ty, o1) == resolve_spec(ty, o2),
    decreases ty, 1int,
{
    match ty {
        TyV::Optional(t) => {
            lemma_builtin_direction_invariant(*t, o1, o2);
        },
        TyV::Wrapper(t) => {
            lemma_builtin_direction_invariant(*t, o1, o2);
        },
        TyV::List(t) => {
            lemma_builtin_direction_invariant(*t, o1, o2);
        },
        TyV::Dict(k, v) => {
            lemma_builtin_direction_invariant(*k, o1, o2);
            lemma_builtin_direction_invariant(*v, o1, o2);
        },
        TyV::FixedArray(t, _n) => {
            lemma_builtin_direction_invariant(*t, o1, o2);
        },
        TyV::Tuple(ts) => {
            lemma_builtin_list_invariant(ts, o1, o2);
        },
        _ => {},
    }
}

proof fn lemma_builtin_list_invariant(ts: Seq<TyV>, o1: ShapeOptions, o2: ShapeOptions)
    requires
        builtin_tys(ts),
        o1.option_add_null == o2.option_add_null,
        o1.option_add_undefined == o2.option_add_undefined,
    ensures
        resolve_each(ts, o1) == resolve_each(ts, o2),
    decreases ts, 2int,
{
    if ts.len() > 0 {
        lemma_builtin_direction_invariant(ts.first(), o1, o2);
        lemma_builtin_list_invariant(ts.drop_first(), o1, o2);
        assert(resolve_each(ts, o1) =~= resolve_each(ts, o2));
    } else {
        assert(resolve_each(ts, o1) =~= resolve_each(ts, o2));
    }
}

/// Without the optional-valued wrapper, a built-in shape does not read the
/// option switches at all: its resolution is one shape for every option
/// set and both directions.
pub proof fn lemma_builtin_no_optional_invariant(ty: TyV, o1: ShapeOptions, o2: ShapeOptions)
    requires
        builtin_ty(ty),
        !mentions_optional(ty),
    ensures
        resolve_spec(ty, o1) == resolve_spec(ty, o2),
    decreases ty, 1int,
{
    match ty {
        TyV::Wrapper(t) => {
            lemma_builtin_no_optional_invariant(*t, o1, o2);
        },
        TyV::List(t) => {
            lemma_builtin_no_optional_invariant(*t, o1, o2);
        },
        TyV::Dict(k, v) => {
            lemma_builtin_no_optional_invariant(*k, o1, o2);
            lemma_builtin_no_optional_invariant(*v, o1, o2);
        },
        TyV::FixedArray(t, _n) => {
            lemma_builtin_no_optional_invariant(*t, o1, o2);
        },
        TyV::Tuple(ts) => {
            lemma_builtin_no_optional_list(ts, o1, o2);
        },
        _ => {},
    }
}

proof fn lemma_builtin_no_optional_list(ts: Seq<TyV>, o1: ShapeOptions, o2: ShapeOptions)
    requires
        builtin_tys(ts),
        !mentions_optional_list(ts),
    ensures
        resolve_each(ts, o1) == resolve_each(ts, o2),
    decreases ts, 2int,
{
    if ts.len() > 0 {
        lemma_builtin_no_optional_invariant(ts.first(), o1, o2);
        lemma_builtin_no_optional_list(ts.drop_first(), o1, o2);
        assert(resolve_each(ts, o1) =~= resolve_each(ts, o2));
    } else {
        assert(resolve_each(ts, o1) =~= resolve_each(ts, o2));
    }
}

/// Rendering reads nothing but the model: two shapes with one model
/// render as the same text, so repeated rendering is stable.
pub proof fn lemma_render_deterministic(a: &crate::model::Type, b: &crate::model::Type)
    requires
        a.view() == b.view(),
    ensures
        crate::render::render_spec(a.view()) == crate::render::render_spec(b.view()),
{
}

// ===================================================================
// The bottom types
// ===================================================================

/// An empty intersection and an empty union both reject every value: with
/// no member to satisfy, neither has any member at all.
pub proof fn lemma_empty_and_or_reject(v: JsonV)
    ensures
        !type_assignable(TypeV::And(Seq::empty()), v),
        !type_assignable(TypeV::Or(Seq::empty()), v),
{
    assert(!crate::assignable::or_any(Seq::empty(), v));
}

// ===================================================================
// Empty containers
// ===================================================================

/// A struct with an empty named-field list resolves to the empty object,
/// not to null, whatever its other annotations say, as long as no
/// conversion override applies in the active direction.
pub proof fn lemma_empty_struct_object(sd: crate::descriptor::StructDefV, o: ShapeOptions)
    requires
        sd.fields == FieldsV::Named(Seq::<NamedFieldV>::empty()),
        conversion_target(sd.attrs, o) is None,
    ensures
        resolve_spec(TyV::Struct(Box::new(sd)), o) == TypeV::Object(
            ObjectV { properties: Seq::empty() },
        ),
{
    let tv = TyV::Struct(Box::new(sd));
    assert(resolve_spec(tv, o) == crate::resolve::fields_shape_spec(sd.attrs, sd.fields, o));
    assert(crate::resolve::fields_shape_spec(sd.attrs, sd.fields, o) == named_shape_spec(
        sd.attrs,
        Option::None,
        Seq::empty(),
        o,
    ));
}

/// An enum none of whose variants is live for the active direction
/// resolves to `Never`, not to an empty union.
pub proof fn lemma_empty_enum_never(ed: crate::descriptor::EnumDefV, o: ShapeOptions)
    requires
        forall|i: int| 0 <= i < ed.variants.len() ==> {
            let v = #[trigger] ed.variants[i];
            v.attrs.skip || (o.is_serialize_spec() && v.attrs.skip_serializing) || (
            o.is_deserialize_spec() && v.attrs.skip_deserializing)
        },
        conversion_target(ed.attrs, o) is None,
    ensures
        resolve_spec(TyV::Enum(Box::new(ed)), o) == TypeV::Never,
{
    let tv = TyV::Enum(Box::new(ed));
    lemma_all_skipped_variants(ed.attrs, ed.variants, o);
    assert(resolve_spec(tv, o) == crate::resolve::enum_shape_spec(ed.attrs, ed.variants, o));
}

proof fn lemma_all_skipped_variants(ca: ContainerAttrsV, vs: Seq<VariantDefV>, o: ShapeOptions)
    requires
        forall|i: int| 0 <= i < vs.len() ==> {
            let v = #[trigger] vs[i];
            v.attrs.skip || (o.is_serialize_spec() && v.attrs.skip_serializing) || (
            o.is_deserialize_spec() && v.attrs.skip_deserializing)
        },
    ensures
        variant_types_spec(ca, vs, o).len() == 0,
    decreases vs,
{
    if vs.len() > 0 {
        assert(vs[0] == vs.first());
        assert forall|i: int| 0 <= i < vs.drop_first().len() implies {
            let v = #[trigger] vs.drop_first()[i];
            v.attrs.skip || (o.is_serialize_spec() && v.attrs.skip_serializing) || (
            o.is_deserialize_spec() && v.attrs.skip_deserializing)
        } by {
            assert(vs.drop_first()[i] == vs[i + 1]);
        }
        lemma_all_skipped_variants(ca, vs.drop_first(), o);
    }
}

// ===================================================================
// Trailing-default arity growth
// ===================================================================

/// How many positional fields branch when deserializing: the ones that
/// are not skipped and carry a default of their own or from the container.
pub open spec fn count_defaults(fs: Seq<PosFieldV>, ca: ContainerAttrsV) -> nat
    decreases fs,
{
    if fs.len() == 0 {
        0
    } else {
        let f = fs.first();
        let here: nat = if !f.attrs.skip && !f.attrs.skip_deserializing && (f.attrs.default
            || ca.default) {
            1
        } else {
            0
        };
        here + count_defaults(fs.drop_first(), ca)
    }
}

/// When deserializing, each defaulted positional field adds exactly one
/// candidate arity: a run of `k` trailing defaulted fields yields `k`
/// additional tuples beyond the one holding every required slot, never
/// two to the `k`.
pub proof fn lemma_deserialize_arity_count(
    cands: Seq<Seq<TypeV>>,
    ca: ContainerAttrsV,
    fs: Seq<PosFieldV>,
    o: ShapeOptions,
)
    requires
        o.is_deserialize_spec(),
        cands.len() >= 1,
    ensures
        cand_fold_spec(cands, ca, fs, o).len() == cands.len() + count_defaults(fs, ca),
    decreases fs,
{
    if fs.len() > 0 {
        let f = fs.first();
        if f.attrs.skip {
            lemma_deserialize_arity_count(cands, ca, fs.drop_first(), o);
        } else {
            if f.attrs.skip_deserializing {
                lemma_deserialize_arity_count(cands, ca, fs.drop_first(), o);
            } else if f.attrs.default || ca.default {
                let t = resolve_spec(f.ty, o);
                lemma_deserialize_arity_count(cands.push(cands.last().push(t)), ca,
                    fs.drop_first(), o);
            } else {
                let t = resolve_spec(f.ty, o);
                lemma_deserialize_arity_count(
                    cands.update(cands.len() - 1, cands.last().push(t)),
                    ca,
                    fs.drop_first(),
                    o,
                );
            }
        }
    }
}

// ===================================================================
// Property order
// ===================================================================

/// The plain (non-flattened, non-skipped, direction-included) fields'
/// resolved keys, in declaration order.
pub open spec fn plain_keys(
    fs: Seq<NamedFieldV>,
    ca: ContainerAttrsV,
    va: Option<VariantAttrsV>,
    o: ShapeOptions,
) -> Seq<Seq<char>>
    decreases fs,
{
    if fs.len() == 0 {
        Seq::empty()
    } else {
        let f = fs.first();
        let rest = plain_keys(fs.drop_first(), ca, va, o);
        if !f.attrs.skip && !f.attrs.flatten && field_included_spec(f, o) {
            seq![field_name_spec(f, ca, va, o)] + rest
        } else {
            rest
        }
    }
}

/// The plain fields' properties, in declaration order.
pub open spec fn plain_props(
    fs: Seq<NamedFieldV>,
    ca: ContainerAttrsV,
    va: Option<VariantAttrsV>,
    o: ShapeOptions,
) -> Seq<(Seq<char>, PropertyV)>
    decreases fs,
{
    if fs.len() == 0 {
        Seq::empty()
    } else {
        let f = fs.first();
        let rest = plain_props(fs.drop_first(), ca, va, o);
        if !f.attrs.skip && !f.attrs.flatten && field_included_spec(f, o) {
            seq![
                (
                    field_name_spec(f, ca, va, o),
                    PropertyV {
                        readonly: false,
                        optional: field_optional_spec(f, ca, o),
                        ty: resolve_spec(f.ty, o),
                    },
                ),
            ] + rest
        } else {
            rest
        }
    }
}

pub open spec fn keys_of(ps: Seq<(Seq<char>, PropertyV)>) -> Seq<Seq<char>> {
    Seq::new(ps.len(), |i: int| ps[i].0)
}

/// Pairwise distinct.
pub open spec fn distinct_seq(ks: Seq<Seq<char>>) -> bool {
    forall|i: int, j: int| 0 <= i < j < ks.len() ==> ks[i] != ks[j]
}

proof fn lemma_plain_props_keys(
    fs: Seq<NamedFieldV>,
    ca: ContainerAttrsV,
    va: Option<VariantAttrsV>,
    o: ShapeOptions,
)
    ensures
        keys_of(plain_props(fs, ca, va, o)) =~= plain_keys(fs, ca, va, o),
    decreases fs,
{
    if fs.len() > 0 {
        lemma_plain_props_keys(fs.drop_first(), ca, va, o);
    }
}

proof fn lemma_props_insert_fresh_general(
    acc: Seq<(Seq<char>, PropertyV)>,
    fs: Seq<NamedFieldV>,
    ca: ContainerAttrsV,
    va: Option<VariantAttrsV>,
    o: ShapeOptions,
)
    requires
        forall|i: int, j: int| 0 <= i < acc.len() && 0 <= j < plain_keys(fs, ca, va, o).len()
            ==> (#[trigger] acc[i]).0 != #[trigger] plain_keys(fs, ca, va, o)[j],
        distinct_seq(plain_keys(fs, ca, va, o)),
    ensures
        named_props_spec(acc, ca, va, fs, o) == acc + plain_props(fs, ca, va, o),
    decreases fs,
{
    if fs.len() == 0 {
        assert(named_props_spec(acc, ca, va, fs, o) =~= acc + plain_props(fs, ca, va, o));
    } else {
        let f = fs.first();
        let ks = plain_keys(fs, ca, va, o);
        let rest_ks = plain_keys(fs.drop_first(), ca, va, o);
        if !f.attrs.skip && !f.attrs.flatten && field_included_spec(f, o) {
            let name = field_name_spec(f, ca, va, o);
            let prop = PropertyV {
                readonly: false,
                optional: field_optional_spec(f, ca, o),
                ty: resolve_spec(f.ty, o),
            };
            assert(ks == seq![name] + rest_ks);
            assert(ks[0] == name);
            assert forall|i: int| 0 <= i < acc.len() implies (#[trigger] acc[i]).0 != name by {
                assert(plain_keys(fs, ca, va, o)[0] == name);
            }
            crate::resolve::lemma_props_insert_absent(acc, name, prop);
            let acc2 = acc.push((name, prop));
            assert forall|i: int, j: int|
                0 <= i < acc2.len() && 0 <= j < rest_ks.len() implies (#[trigger] acc2[i]).0
                != #[trigger] rest_ks[j] by {
                assert(rest_ks[j] == ks[j + 1]);
                if i < acc.len() {
                    assert(acc2[i] == acc[i]);
                } else {
                    assert(acc2[i] == (name, prop));
                    assert(ks[0] != ks[j + 1]);
                }
            }
            assert(distinct_seq(rest_ks)) by {
                assert forall|i: int, j: int| 0 <= i < j < rest_ks.len() implies rest_ks[i]
                    != rest_ks[j] by {
                    assert(rest_ks[i] == ks[i + 1]);
                    assert(rest_ks[j] == ks[j + 1]);
                }
            }
            lemma_props_insert_fresh_general(acc2, fs.drop_first(), ca, va, o);
            assert(named_props_spec(acc, ca, va, fs, o) =~= acc + plain_props(fs, ca, va, o));
        } else {
            lemma_props_insert_fresh_general(acc, fs.drop_first(), ca, va, o);
            assert(named_props_spec(acc, ca, va, fs, o) =~= acc + plain_props(fs, ca, va, o));
        }
    }
}

/// The leftmost shape of a nested intersection chain.
pub open spec fn and_base(t: TypeV) -> TypeV
    decreases t,
{
    match t {
        TypeV::And(ts) => {
            if ts.len() > 0 {
                and_base(ts.first())
            } else {
                t
            }
        },
        _ => t,
    }
}

proof fn lemma_flatten_keeps_base(
    acc: TypeV,
    ca: ContainerAttrsV,
    fs: Seq<NamedFieldV>,
    o: ShapeOptions,
)
    ensures
        and_base(flatten_fold_spec(acc, ca, fs, o)) == and_base(acc),
    decreases fs,
{
    if fs.len() > 0 {
        let f = fs.first();
        if !f.attrs.skip && f.attrs.flatten {
            let flat = resolve_spec(f.ty, o);
            let wrapped = TypeV::Or(seq![TypeV::Undefined, flat]);
            let skipped = if o.is_serialize_spec() {
                f.attrs.skip_serializing
            } else {
                f.attrs.skip_deserializing
            };
            if skipped {
                lemma_flatten_keeps_base(acc, ca, fs.drop_first(), o);
            } else {
                let conditional = if o.is_serialize_spec() {
                    f.attrs.skip_serializing_if
                } else {
                    f.attrs.default || ca.default
                };
                let acc2 = if conditional {
                    TypeV::And(seq![acc, wrapped])
                } else {
                    TypeV::And(seq![acc, flat])
                };
                assert(and_base(acc2) == and_base(acc));
                lemma_flatten_keeps_base(acc2, ca, fs.drop_first(), o);
            }
        } else {
            lemma_flatten_keeps_base(acc, ca, fs.drop_first(), o);
        }
    }
}

/// Object property order is declaration order, and flatten composition
/// only ever wraps the base object in intersections: for a non-transparent
/// named-field body whose resolved keys are pairwise distinct, the
/// leftmost shape of the result is exactly the object holding the plain
/// fields' properties, in declaration order, keyed by their resolved
/// names.
pub proof fn lemma_object_property_order(
    ca: ContainerAttrsV,
    va: Option<VariantAttrsV>,
    fs: Seq<NamedFieldV>,
    o: ShapeOptions,
)
    requires
        fs.len() > 0,
        !ca.transparent,
        distinct_seq(plain_keys(fs, ca, va, o)),
    ensures
        and_base(named_shape_spec(ca, va, fs, o)) == TypeV::Object(
            ObjectV { properties: plain_props(fs, ca, va, o) },
        ),
        keys_of(plain_props(fs, ca, va, o)) =~= plain_keys(fs, ca, va, o),
{
    lemma_plain_props_keys(fs, ca, va, o);
    lemma_props_insert_fresh_general(Seq::empty(), fs, ca, va, o);
    assert(named_props_spec(Seq::empty(), ca, va, fs, o) =~= plain_props(fs, ca, va, o));
    let base = TypeV::Object(ObjectV { properties: named_props_spec(Seq::empty(), ca, va, fs, o) });
    lemma_flatten_keeps_base(base, ca, fs, o);
    assert(and_base(base) == base);
}


// ===================================================================
// Honest serialization conforms to the serialize shape
// ===================================================================

/// The decoded forms an honest serializer can produce for a value of a
/// member type: strings for text, numbers for numerics, booleans for
/// booleans, null for unit; an absent optional value becomes null and a
/// present one its member's form; wrappers are transparent; sequences and
/// fixed arrays become arrays of their members' forms; mappings become
/// string-keyed objects of their members' forms.  A named-field struct
/// becomes an object holding each emitted field under its resolved key,
/// where a conditionally skipped field may be absent; a plain newtype is
/// its field's form; an enum is the form of one of its live variants,
/// combined with its discriminant per the tagging mode.  Custom shapes,
/// conversion overrides, transparent containers, flattened fields and
/// multi-slot positional bodies are outside this fragment.
pub open spec fn serialized_form(ty: TyV, v: JsonV, o: ShapeOptions) -> bool
    decreases ty, 4int,
        via serialized_form_decreases
{
    match ty {
        TyV::String => v is String,
        TyV::Number => v is Number,
        TyV::Boolean => v is Bool,
        TyV::Unit => v is Null,
        TyV::Optional(t) => v is Null || serialized_form(*t, v, o),
        TyV::Wrapper(t) => serialized_form(*t, v, o),
        TyV::List(t) => v matches JsonV::Array(items) && forall|i: int|
            0 <= i < items.len() ==> serialized_form(*t, #[trigger] items[i], o),
        TyV::Dict(_k, w) => v matches JsonV::Object(ms) && forall|i: int|
            0 <= i < ms.len() ==> serialized_form(*w, (#[trigger] ms[i]).1, o),
        TyV::FixedArray(t, n) => v matches JsonV::Array(items) && items.len() == n && forall|
            i: int,
        | 0 <= i < items.len() ==> serialized_form(*t, #[trigger] items[i], o),
        TyV::Tuple(ts) => v matches JsonV::Array(items) && items.len() == ts.len() && forall|
            i: int,
        | 0 <= i < ts.len() ==> serialized_form(#[trigger] ts[i], items[i], o),
        TyV::Custom(_) => false,
        TyV::Struct(sd) => {
            &&& conversion_target(sd.attrs, o) is None
            &&& payload_form(sd.attrs, Option::None, sd.fields, v, o)
        },
        TyV::Enum(ed) => {
            &&& conversion_target(ed.attrs, o) is None
            &&& exists|i: int| 0 <= i < ed.variants.len() && variant_live(
                #[trigger] ed.variants[i],
                o,
            ) && variant_form(ed.attrs, ed.variants[i], v, o)
        },
    }
}

/// Whether a variant contributes to the shape in the active direction.
pub open spec fn variant_live(vd: VariantDefV, o: ShapeOptions) -> bool {
    !vd.attrs.skip && ((o.is_serialize_spec() && !vd.attrs.skip_serializing) || (
    o.is_deserialize_spec() && !vd.attrs.skip_deserializing))
}

/// The serialized form of a struct body or variant payload: null for a
/// unit body, an object of the emitted named fields, or the bare field of
/// a plain newtype.  Transparent containers, flattened fields and
/// multi-slot positional bodies are left out of the fragment.
pub open spec fn payload_form(
    ca: ContainerAttrsV,
    va: Option<VariantAttrsV>,
    fields: FieldsV,
    v: JsonV,
    o: ShapeOptions,
) -> bool
    decreases fields, 3int,
{
    match fields {
        FieldsV::Unit => v is Null,
        FieldsV::Named(fs) => {
            &&& fs.len() > 0
            &&& !ca.transparent
            &&& distinct_seq(plain_keys(fs, ca, va, o))
            &&& v matches JsonV::Object(ms) && named_form(ca, va, fs, ms, o)
        },
        FieldsV::Unnamed(fs) => {
            &&& fs.len() == 1
            &&& {
                let f = fs[0];
                &&& !f.attrs.skip
                &&& !f.attrs.skip_serializing
                &&& !f.attrs.skip_serializing_if
                &&& !f.attrs.default
                &&& !ca.default
                &&& serialized_form(f.ty, v, o)
            }
        },
    }
}

/// Each emitted named field stands in the object under its resolved key
/// with a conforming value; a conditionally skipped field may be absent;
/// flattened fields are outside the fragment.
pub open spec fn named_form(
    ca: ContainerAttrsV,
    va: Option<VariantAttrsV>,
    fs: Seq<NamedFieldV>,
    ms: Seq<(Seq<char>, JsonV)>,
    o: ShapeOptions,
) -> bool
    decreases fs, 2int,
{
    if fs.len() == 0 {
        true
    } else {
        let f = fs.first();
        let ok_here = if !f.attrs.skip && f.attrs.flatten {
            false
        } else if !f.attrs.skip && !f.attrs.skip_serializing && o.is_serialize_spec() {
            match member_get(ms, field_name_spec(f, ca, va, o)) {
                Option::Some(w) => serialized_form(f.ty, w, o),
                Option::None => f.attrs.skip_serializing_if,
            }
        } else {
            true
        };
        ok_here && named_form(ca, va, fs.drop_first(), ms, o)
    }
}

/// A live variant's serialized form, per the container's tagging mode.
pub open spec fn variant_form(ca: ContainerAttrsV, vd: VariantDefV, v: JsonV, o: ShapeOptions) -> bool
    decreases vd, 4int,
{
    let name = variant_name_spec(vd, ca, o);
    if vd.attrs.untagged || ca.untagged {
        payload_form(ca, Option::Some(vd.attrs), vd.fields, v, o)
    } else {
        match ca.tag {
            Option::Some(tag) => {
                match vd.fields {
                    FieldsV::Unit => v matches JsonV::Object(ms) && member_get(ms, tag)
                        == Option::Some(JsonV::String(name)),
                    _ => {
                        match ca.content {
                            Option::Some(content) => v matches JsonV::Object(ms) && member_get(
                                ms,
                                tag,
                            ) == Option::Some(JsonV::String(name)) && (member_get(ms, content)
                                matches Option::Some(w) && payload_form(
                                ca,
                                Option::Some(vd.attrs),
                                vd.fields,
                                w,
                                o,
                            )),
                            Option::None => v matches JsonV::Object(ms) && member_get(ms, tag)
                                == Option::Some(JsonV::String(name)) && payload_form(
                                ca,
                                Option::Some(vd.attrs),
                                vd.fields,
                                v,
                                o,
                            ),
                        }
                    },
                }
            },
            Option::None => {
                match vd.fields {
                    FieldsV::Unit => v == JsonV::String(name),
                    _ => v matches JsonV::Object(ms) && (member_get(ms, name) matches
                        Option::Some(w) && payload_form(
                        ca,
                        Option::Some(vd.attrs),
                        vd.fields,
                        w,
                        o,
                    )),
                }
            },
        }
    }
}

#[via_fn]
proof fn serialized_form_decreases(ty: TyV, v: JsonV, o: ShapeOptions) {
    match ty {
        TyV::Tuple(ts) => {
            assert forall|i: int| 0 <= i < ts.len() implies decreases_to!(ty => ts[i]) by {
                assert(decreases_to!(ty => ts));
                assert(decreases_to!(ts => ts[i]));
            }
        },
        TyV::Struct(sd) => {
            assert(decreases_to!(ty => *sd));
            assert(decreases_to!(*sd => sd.fields));
        },
        TyV::Enum(ed) => {
            assert forall|i: int|
                0 <= i < ed.variants.len() implies decreases_to!(ty => ed.variants[i]) by {
                assert(decreases_to!(ty => *ed));
                assert(decreases_to!(*ed => ed.variants));
                assert(decreases_to!(ed.variants => ed.variants[i]));
            }
        },
        _ => {},
    }
}
/// The shape a struct body or variant payload resolves to.
pub open spec fn payload_shape(
    ca: ContainerAttrsV,
    va: Option<VariantAttrsV>,
    fields: FieldsV,
    o: ShapeOptions,
) -> TypeV
    decreases fields, 4int,
{
    match fields {
        FieldsV::Unit => TypeV::Null,
        FieldsV::Named(fs) => named_shape_spec(ca, va, fs, o),
        FieldsV::Unnamed(fs) => crate::resolve::unnamed_shape_spec(ca, fs, o),
    }
}

proof fn lemma_named_form_fields(
    ca: ContainerAttrsV,
    va: Option<VariantAttrsV>,
    fs: Seq<NamedFieldV>,
    ms: Seq<(Seq<char>, JsonV)>,
    o: ShapeOptions,
)
    requires
        named_form(ca, va, fs, ms, o),
    ensures
        forall|i: int| 0 <= i < fs.len() ==> ((#[trigger] fs[i]).attrs.skip
            || !fs[i].attrs.flatten),
    decreases fs,
{
    if fs.len() > 0 {
        lemma_named_form_fields(ca, va, fs.drop_first(), ms, o);
        assert forall|i: int| 0 <= i < fs.len() implies ((#[trigger] fs[i]).attrs.skip
            || !fs[i].attrs.flatten) by {
            if i == 0 {
                assert(fs[0] == fs.first());
            } else {
                assert(fs.drop_first()[i - 1] == fs[i]);
            }
        }
    }
}

proof fn lemma_flatten_fold_without_flatten(
    acc: TypeV,
    ca: ContainerAttrsV,
    fs: Seq<NamedFieldV>,
    o: ShapeOptions,
)
    requires
        forall|i: int| 0 <= i < fs.len() ==> ((#[trigger] fs[i]).attrs.skip
            || !fs[i].attrs.flatten),
    ensures
        flatten_fold_spec(acc, ca, fs, o) == acc,
    decreases fs,
{
    if fs.len() > 0 {
        assert(fs[0] == fs.first());
        assert forall|i: int| 0 <= i < fs.drop_first().len() implies
            ((#[trigger] fs.drop_first()[i]).attrs.skip || !fs.drop_first()[i].attrs.flatten) by {
            assert(fs.drop_first()[i] == fs[i + 1]);
        }
        lemma_flatten_fold_without_flatten(acc, ca, fs.drop_first(), o);
    }
}

/// Each property a plain named-field body derives is satisfied by the
/// serialized object.
proof fn lemma_plain_props_sat(
    ca: ContainerAttrsV,
    va: Option<VariantAttrsV>,
    fs: Seq<NamedFieldV>,
    ms: Seq<(Seq<char>, JsonV)>,
    o: ShapeOptions,
)
    requires
        named_form(ca, va, fs, ms, o),
        o.is_serialize_spec(),
        o.option_add_null,
    ensures
        forall|l: int| 0 <= l < plain_props(fs, ca, va, o).len() ==> {
            let p = #[trigger] plain_props(fs, ca, va, o)[l];
            match member_get(ms, p.0) {
                Option::Some(w) => type_assignable(p.1.ty, w),
                Option::None => p.1.optional,
            }
        },
    decreases fs, 1int,
{
    if fs.len() > 0 {
        let f = fs.first();
        lemma_plain_props_sat(ca, va, fs.drop_first(), ms, o);
        let rest = plain_props(fs.drop_first(), ca, va, o);
        let all = plain_props(fs, ca, va, o);
        if !f.attrs.skip && !f.attrs.flatten && field_included_spec(f, o) {
            let name = field_name_spec(f, ca, va, o);
            let head = (
                name,
                PropertyV {
                    readonly: false,
                    optional: field_optional_spec(f, ca, o),
                    ty: resolve_spec(f.ty, o),
                },
            );
            assert(all == seq![head] + rest);
            match member_get(ms, name) {
                Option::Some(w) => {
                    assert(serialized_form(f.ty, w, o));
                    assert(decreases_to!(fs => fs[0]));
                    assert(decreases_to!(fs[0] => fs[0].ty));
                    lemma_serialize_assignable(f.ty, w, o);
                },
                Option::None => {
                    assert(f.attrs.skip_serializing_if);
                    assert(field_optional_spec(f, ca, o));
                },
            }
            assert forall|l: int| 0 <= l < all.len() implies {
                let p = #[trigger] all[l];
                match member_get(ms, p.0) {
                    Option::Some(w) => type_assignable(p.1.ty, w),
                    Option::None => p.1.optional,
                }
            } by {
                if l == 0 {
                    assert(all[0] == head);
                } else {
                    assert(all[l] == rest[l - 1]);
                }
            }
        } else {
            assert(all == rest);
        }
    }
}

/// A serialized named-field body conforms to the object shape the body
/// derives.
proof fn lemma_named_assignable(
    ca: ContainerAttrsV,
    va: Option<VariantAttrsV>,
    fs: Seq<NamedFieldV>,
    ms: Seq<(Seq<char>, JsonV)>,
    o: ShapeOptions,
)
    requires
        fs.len() > 0,
        !ca.transparent,
        distinct_seq(plain_keys(fs, ca, va, o)),
        named_form(ca, va, fs, ms, o),
        o.is_serialize_spec(),
        o.option_add_null,
    ensures
        type_assignable(named_shape_spec(ca, va, fs, o), JsonV::Object(ms)),
    decreases fs, 2int,
{
    lemma_named_form_fields(ca, va, fs, ms, o);
    let base = TypeV::Object(ObjectV { properties: named_props_spec(Seq::empty(), ca, va, fs, o) });
    lemma_flatten_fold_without_flatten(base, ca, fs, o);
    lemma_props_insert_fresh_general(Seq::empty(), fs, ca, va, o);
    assert(named_props_spec(Seq::empty(), ca, va, fs, o) =~= plain_props(fs, ca, va, o));
    assert(named_shape_spec(ca, va, fs, o) == TypeV::Object(
        ObjectV { properties: plain_props(fs, ca, va, o) },
    ));
    lemma_plain_props_sat(ca, va, fs, ms, o);
}

/// A serialized payload conforms to the shape its body derives.
proof fn lemma_payload_assignable(
    ca: ContainerAttrsV,
    va: Option<VariantAttrsV>,
    fields: FieldsV,
    v: JsonV,
    o: ShapeOptions,
)
    requires
        payload_form(ca, va, fields, v, o),
        o.is_serialize_spec(),
        o.option_add_null,
    ensures
        type_assignable(payload_shape(ca, va, fields, o), v),
    decreases fields, 3int,
{
    match fields {
        FieldsV::Unit => {},
        FieldsV::Named(fs) => {
            let ms = v->Object_0;
            lemma_named_assignable(ca, va, fs, ms, o);
        },
        FieldsV::Unnamed(fs) => {
            let f = fs[0];
            assert(decreases_to!(fields => fs));
            assert(decreases_to!(fs => fs[0]));
            assert(decreases_to!(fs[0] => fs[0].ty));
            lemma_serialize_assignable(f.ty, v, o);
            assert(crate::resolve::unnamed_shape_spec(ca, fs, o) == resolve_spec(f.ty, o)) by {
                assert(fs.first() == fs[0]);
            }
        },
    }
}

/// A serialized live variant conforms to the shape it contributes to the
/// union.
proof fn lemma_variant_assignable(ca: ContainerAttrsV, vd: VariantDefV, v: JsonV, o: ShapeOptions)
    requires
        variant_form(ca, vd, v, o),
        o.is_serialize_spec(),
        o.option_add_null,
    ensures
        type_assignable(variant_type_spec(ca, vd, o), v),
    decreases vd, 5int,
{
    let name = variant_name_spec(vd, ca, o);
    assert(decreases_to!(vd => vd.fields));
    if vd.attrs.untagged || ca.untagged {
        lemma_payload_assignable(ca, Option::Some(vd.attrs), vd.fields, v, o);
    } else {
        match ca.tag {
            Option::Some(tag) => {
                match vd.fields {
                    FieldsV::Unit => {
                        let ms = v->Object_0;
                        let tobj = crate::resolve::tag_object(tag, name);
                        assert(variant_type_spec(ca, vd, o) == tobj);
                        let props = tobj->Object_0.properties;
                        assert(props[0] == (
                            tag,
                            crate::resolve::plain_prop(TypeV::Literal(LiteralV::String(name))),
                        ));
                        assert forall|i: int| 0 <= i < props.len() implies {
                            let p = #[trigger] props[i];
                            match member_get(ms, p.0) {
                                Option::Some(w) => type_assignable(p.1.ty, w),
                                Option::None => p.1.optional,
                            }
                        } by {
                            assert(i == 0);
                            assert(member_get(ms, tag) == Option::Some(JsonV::String(name)));
                        }
                    },
                    _ => {
                        match ca.content {
                            Option::Some(content) => {
                                let ms = v->Object_0;
                                let w = member_get(ms, content)->Some_0;
                                lemma_payload_assignable(ca, Option::Some(vd.attrs), vd.fields, w, o);
                                let pshape = payload_shape(ca, Option::Some(vd.attrs), vd.fields, o);
                                let r = variant_type_spec(ca, vd, o);
                                let props = r->Object_0.properties;
                                assert(props.len() == 2);
                                assert(props[0] == (
                                    tag,
                                    crate::resolve::plain_prop(
                                        TypeV::Literal(LiteralV::String(name)),
                                    ),
                                ));
                                assert(props[1] == (content, crate::resolve::plain_prop(pshape)));
                                assert forall|i: int| 0 <= i < props.len() implies {
                                    let p = #[trigger] props[i];
                                    match member_get(ms, p.0) {
                                        Option::Some(w2) => type_assignable(p.1.ty, w2),
                                        Option::None => p.1.optional,
                                    }
                                } by {
                                    if i == 0 {
                                        assert(member_get(ms, tag) == Option::Some(
                                            JsonV::String(name),
                                        ));
                                    } else {
                                        assert(member_get(ms, content) == Option::Some(w));
                                    }
                                }
                            },
                            Option::None => {
                                let ms = v->Object_0;
                                lemma_payload_assignable(ca, Option::Some(vd.attrs), vd.fields, v, o);
                                let pshape = payload_shape(ca, Option::Some(vd.attrs), vd.fields, o);
                                let tobj = crate::resolve::tag_object(tag, name);
                                let r = variant_type_spec(ca, vd, o);
                                assert(r == TypeV::And(seq![tobj, pshape]));
                                let members = r->And_0;
                                assert(members.len() == 2);
                                assert(type_assignable(tobj, v)) by {
                                    let props = tobj->Object_0.properties;
                                    assert forall|i: int| 0 <= i < props.len() implies {
                                        let p = #[trigger] props[i];
                                        match member_get(ms, p.0) {
                                            Option::Some(w2) => type_assignable(p.1.ty, w2),
                                            Option::None => p.1.optional,
                                        }
                                    } by {
                                        assert(i == 0);
                                        assert(member_get(ms, tag) == Option::Some(
                                            JsonV::String(name),
                                        ));
                                    }
                                }
                                assert forall|i: int| 0 <= i < members.len() implies
                                    type_assignable(#[trigger] members[i], v) by {
                                    if i == 0 {
                                        assert(members[0] == tobj);
                                    } else {
                                        assert(members[1] == pshape);
                                    }
                                }
                            },
                        }
                    },
                }
            },
            Option::None => {
                match vd.fields {
                    FieldsV::Unit => {
                        assert(variant_type_spec(ca, vd, o) == TypeV::Literal(
                            LiteralV::String(name),
                        ));
                    },
                    _ => {
                        let ms = v->Object_0;
                        let w = member_get(ms, name)->Some_0;
                        lemma_payload_assignable(ca, Option::Some(vd.attrs), vd.fields, w, o);
                        let pshape = payload_shape(ca, Option::Some(vd.attrs), vd.fields, o);
                        let r = variant_type_spec(ca, vd, o);
                        let props = r->Object_0.properties;
                        assert(props.len() == 1);
                        assert(props[0] == (name, crate::resolve::plain_prop(pshape)));
                        assert forall|i: int| 0 <= i < props.len() implies {
                            let p = #[trigger] props[i];
                            match member_get(ms, p.0) {
                                Option::Some(w2) => type_assignable(p.1.ty, w2),
                                Option::None => p.1.optional,
                            }
                        } by {
                            assert(i == 0);
                            assert(member_get(ms, name) == Option::Some(w));
                        }
                    },
                }
            },
        }
    }
}

/// A value a union member accepts, the union accepts.
proof fn lemma_or_member(ts: Seq<TypeV>, v: JsonV, j: int)
    requires
        0 <= j < ts.len(),
        type_assignable(ts[j], v),
    ensures
        type_assignable(TypeV::Or(ts), v),
{
    crate::assignable::lemma_or_any_intro(ts, v, j);
}

/// A live variant's shape stands in the union the enum body derives.
proof fn lemma_variant_types_contains(
    ca: ContainerAttrsV,
    vs: Seq<VariantDefV>,
    i: int,
    o: ShapeOptions,
)
    requires
        0 <= i < vs.len(),
        variant_live(vs[i], o),
    ensures
        exists|j: int| 0 <= j < variant_types_spec(ca, vs, o).len()
            && #[trigger] variant_types_spec(ca, vs, o)[j] == variant_type_spec(ca, vs[i], o),
    decreases vs,
{
    let all = variant_types_spec(ca, vs, o);
    let head = vs.first();
    let rest = variant_types_spec(ca, vs.drop_first(), o);
    if i == 0 {
        assert(vs[0] == head);
        assert(!head.attrs.skip);
        assert(all == seq![variant_type_spec(ca, head, o)] + rest);
        assert(all[0] == variant_type_spec(ca, vs[i], o));
    } else {
        assert(vs.drop_first()[i - 1] == vs[i]);
        lemma_variant_types_contains(ca, vs.drop_first(), i - 1, o);
        let j = choose|j: int| 0 <= j < rest.len() && #[trigger] rest[j] == variant_type_spec(
            ca,
            vs[i],
            o,
        );
        if head.attrs.skip {
            assert(all == rest);
            assert(all[j] == variant_type_spec(ca, vs[i], o));
        } else if (o.is_serialize_spec() && !head.attrs.skip_serializing) || (
        o.is_deserialize_spec() && !head.attrs.skip_deserializing) {
            assert(all == seq![variant_type_spec(ca, head, o)] + rest);
            assert(all[j + 1] == variant_type_spec(ca, vs[i], o));
        } else {
            assert(all == rest);
            assert(all[j] == variant_type_spec(ca, vs[i], o));
        }
    }
}

/// Whatever an honest serializer would emit for a value of a member type
/// inside the fragment above, the serialize-direction shape of that type
/// judges assignable, as long as the options keep null in an optional
/// member's union (as the recommended serialize options do).  This is the
/// round trip from a type through serialization to conformance.
pub proof fn lemma_serialize_assignable(ty: TyV, v: JsonV, o: ShapeOptions)
    requires
        serialized_form(ty, v, o),
        o.is_serialize_spec(),
        o.option_add_null,
    ensures
        type_assignable(resolve_spec(ty, o), v),
    decreases ty, 6int,
{
    match ty {
        TyV::Optional(t) => {
            let inner = resolve_spec(*t, o);
            let r = resolve_spec(ty, o);
            if o.option_add_undefined {
                assert(r == TypeV::Or(seq![inner, TypeV::Null, TypeV::Undefined]));
            } else {
                assert(r == TypeV::Or(seq![inner, TypeV::Null]));
            }
            if v is Null {
                let members = r->Or_0;
                assert(members[1] == TypeV::Null);
                assert(type_assignable(members[1], v));
                crate::assignable::lemma_or_any_intro(members, v, 1);
            } else {
                lemma_serialize_assignable(*t, v, o);
                let members = r->Or_0;
                assert(members[0] == inner);
                assert(type_assignable(members[0], v));
                crate::assignable::lemma_or_any_intro(members, v, 0);
            }
        },
        TyV::Wrapper(t) => {
            lemma_serialize_assignable(*t, v, o);
        },
        TyV::List(t) => {
            let items = v->Array_0;
            assert forall|i: int| 0 <= i < items.len() implies type_assignable(
                resolve_spec(*t, o),
                #[trigger] items[i],
            ) by {
                lemma_serialize_assignable(*t, items[i], o);
            }
        },
        TyV::Dict(_k, _w) => {
            assert(v is Object);
        },
        TyV::FixedArray(t, n) => {
            let items = v->Array_0;
            let item = resolve_spec(*t, o);
            assert forall|i: int| 0 <= i < items.len() implies type_assignable(
                item,
                #[trigger] items[i],
            ) by {
                lemma_serialize_assignable(*t, items[i], o);
            }
            let r = resolve_spec(ty, o);
            assert(r == TypeV::Tuple(
                TupleV { items: Seq::new(n, |i: int| item), rest: Option::None },
            ));
            let slots = Seq::new(n, |i: int| item);
            assert forall|i: int| 0 <= i < slots.len() implies type_assignable(
                #[trigger] slots[i],
                items[i],
            ) by {
                assert(slots[i] == item);
            }
        },
        TyV::Tuple(ts) => {
            let items = v->Array_0;
            let slots = resolve_each(ts, o);
            lemma_resolve_each_index(ts, o);
            assert forall|i: int| 0 <= i < slots.len() implies type_assignable(
                #[trigger] slots[i],
                items[i],
            ) by {
                assert(decreases_to!(ty => ts));
                assert(decreases_to!(ts => ts[i]));
                lemma_serialize_assignable(ts[i], items[i], o);
            }
            let r = resolve_spec(ty, o);
            assert(r == TypeV::Tuple(TupleV { items: slots, rest: Option::None }));
        },
        TyV::Struct(sd) => {
            assert(decreases_to!(ty => *sd));
            assert(decreases_to!(*sd => sd.fields));
            lemma_payload_assignable(sd.attrs, Option::None, sd.fields, v, o);
            assert(resolve_spec(ty, o) == crate::resolve::fields_shape_spec(
                sd.attrs,
                sd.fields,
                o,
            ));
            assert(crate::resolve::fields_shape_spec(sd.attrs, sd.fields, o) == payload_shape(
                sd.attrs,
                Option::None,
                sd.fields,
                o,
            ));
            assert(type_assignable(resolve_spec(ty, o), v));
        },
        TyV::Enum(ed) => {
            assert(decreases_to!(ty => *ed));
            assert(decreases_to!(*ed => ed.variants));
            let i = choose|i: int| 0 <= i < ed.variants.len() && variant_live(
                #[trigger] ed.variants[i],
                o,
            ) && variant_form(ed.attrs, ed.variants[i], v, o);
            assert(decreases_to!(ed.variants => ed.variants[i]));
            lemma_variant_assignable(ed.attrs, ed.variants[i], v, o);
            lemma_variant_types_contains(ed.attrs, ed.variants, i, o);
            let all = variant_types_spec(ed.attrs, ed.variants, o);
            let j = choose|j: int| 0 <= j < all.len() && #[trigger] all[j] == variant_type_spec(
                ed.attrs,
                ed.variants[i],
                o,
            );
            assert(all.len() > 0);
            let r = resolve_spec(ty, o);
            assert(r == crate::resolve::enum_shape_spec(ed.attrs, ed.variants, o));
            assert(r == TypeV::Or(all));
            assert(0 <= j < all.len());
            assert(type_assignable(all[j], v));
            lemma_or_member(all, v, j);
        },
        _ => {},
    }
}

proof fn lemma_resolve_each_index(ts: Seq<TyV>, o: ShapeOptions)
    ensures
        resolve_each(ts, o).len() == ts.len(),
        forall|i: int| 0 <= i < ts.len() ==> #[trigger] resolve_each(ts, o)[i] == resolve_spec(
            ts[i],
            o,
        ),
    decreases ts,
{
    if ts.len() > 0 {
        lemma_resolve_each_index(ts.drop_first(), o);
        assert forall|i: int| 0 <= i < ts.len() implies #[trigger] resolve_each(ts, o)[i]
            == resolve_spec(ts[i], o) by {
            if i == 0 {
                assert(resolve_each(ts, o)[0] == resolve_spec(ts.first(), o));
            } else {
                assert(resolve_each(ts, o)[i] == resolve_each(ts.drop_first(), o)[i - 1]);
                assert(ts.drop_first()[i - 1] == ts[i]);
            }
        }
    }
}


} // verus!
