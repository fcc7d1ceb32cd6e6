use vstd::prelude::*;
use crate::json::{JsonV, JsonValue, member_get, view_members, view_jsons, lemma_view_members,
    lemma_view_jsons};
use crate::model::{Array, ArrayV, Literal, LiteralV, Object, Property, PropertyV, Record, RecordV,
    Tuple, TupleV, Type, TypeV, view_props, view_types, lemma_view_props, lemma_view_types};
use crate::num::{Decimal, parse_dec_spec};

verus! {

// ===================================================================
// A size measure for termination
// ===================================================================

/// The size of a shape; key matching recurses through a record's key and
/// value shapes together, so termination is argued over this measure.
pub open spec fn rank(t: TypeV) -> nat
    decreases t,
{
    match t {
        TypeV::Null => 1,
        TypeV::Undefined => 1,
        TypeV::Never => 1,
        TypeV::Boolean => 1,
        TypeV::Number => 1,
        TypeV::String => 1,
        TypeV::Literal(_) => 1,
        TypeV::Tuple(tp) => {
            let restr: nat = match tp.rest {
                Option::Some(r) => rank(*r),
                Option::None => 0,
            };
            1 + ranks(tp.items) + restr
        },
        TypeV::Array(a) => 1 + rank(*a.item),
        TypeV::Object(o) => 1 + props_rank(o.properties),
        TypeV::Record(r) => 1 + rank(*r.key) + rank(*r.value),
        TypeV::And(ts) => 1 + ranks(ts),
        TypeV::Or(ts) => 1 + ranks(ts),
        TypeV::Custom(_) => 1,
    }
}

pub open spec fn ranks(ts: Seq<TypeV>) -> nat
    decreases ts,
{
    if ts.len() == 0 {
        0
    } else {
        rank(ts.first()) + ranks(ts.drop_first())
    }
}

pub open spec fn props_rank(ps: Seq<(Seq<char>, PropertyV)>) -> nat
    decreases ps,
{
    if ps.len() == 0 {
        0
    } else {
        rank(ps.first().1.ty) + props_rank(ps.drop_first())
    }
}

pub proof fn lemma_ranks_elem(ts: Seq<TypeV>, i: int)
    requires
        0 <= i < ts.len(),
    ensures
        rank(ts[i]) <= ranks(ts),
    decreases ts.len(),
{
    if i == 0 {
        assert(ts[0] == ts.first());
    } else {
        lemma_ranks_elem(ts.drop_first(), i - 1);
        assert(ts.drop_first()[i - 1] == ts[i]);
    }
}

pub proof fn lemma_props_rank_elem(ps: Seq<(Seq<char>, PropertyV)>, i: int)
    requires
        0 <= i < ps.len(),
    ensures
        rank(ps[i].1.ty) <= props_rank(ps),
    decreases ps.len(),
{
    if i == 0 {
        assert(ps[0] == ps.first());
    } else {
        lemma_props_rank_elem(ps.drop_first(), i - 1);
        assert(ps.drop_first()[i - 1] == ps[i]);
    }
}

// ===================================================================
// The conformance relation
// ===================================================================

/// Whether a value is exactly the literal.
pub open spec fn literal_assignable(l: LiteralV, v: JsonV) -> bool {
    match l {
        LiteralV::String(s) => v matches JsonV::String(t) && s == t,
        LiteralV::Number(a) => v matches JsonV::Number(b) && a == b,
        LiteralV::Boolean(a) => v matches JsonV::Bool(b) && a == b,
    }
}

/// Structural conformance of a decoded value to a shape.  Leaves check the
/// value's kind; tuples check their slots (and the trailing slot when one
/// is set, ignoring extras otherwise); arrays check every element; objects
/// check every declared property, letting an optional one be absent and
/// ignoring undeclared keys; records check every entry against the key and
/// value shapes unless marked optional; an intersection needs every member
/// and a union at least one, so both reject everything when empty; opaque
/// custom shapes reject everything.
pub open spec fn type_assignable(t: TypeV, v: JsonV) -> bool
    decreases rank(t), 1int,
        via type_assignable_decreases
{
    match t {
        TypeV::String => v is String,
        TypeV::Number => v is Number,
        TypeV::Boolean => v is Bool,
        TypeV::Null => v is Null,
        TypeV::Undefined => false,
        TypeV::Never => false,
        TypeV::Literal(l) => literal_assignable(l, v),
        TypeV::Tuple(tp) => match v {
            JsonV::Array(items) => {
                &&& items.len() >= tp.items.len()
                &&& forall|i: int| 0 <= i < tp.items.len() ==> type_assignable(
                    #[trigger] tp.items[i],
                    items[i],
                )
                &&& match tp.rest {
                    Option::Some(r) => forall|j: int|
                        tp.items.len() <= j < items.len() ==> type_assignable(
                            *r,
                            #[trigger] items[j],
                        ),
                    Option::None => true,
                }
            },
            _ => false,
        },
        TypeV::Array(a) => match v {
            JsonV::Array(items) => forall|i: int| 0 <= i < items.len() ==> type_assignable(
                *a.item,
                #[trigger] items[i],
            ),
            _ => false,
        },
        TypeV::Object(o) => match v {
            JsonV::Object(ms) => forall|i: int| 0 <= i < o.properties.len() ==> {
                let p = #[trigger] o.properties[i];
                match member_get(ms, p.0) {
                    Option::Some(w) => type_assignable(p.1.ty, w),
                    Option::None => p.1.optional,
                }
            },
            _ => false,
        },
        TypeV::Record(r) => match v {
            JsonV::Object(ms) => r.optional || record_key_match(*r.key, *r.value, ms),
            _ => false,
        },
        TypeV::And(ts) => ts.len() > 0 && forall|i: int| 0 <= i < ts.len() ==> type_assignable(
            #[trigger] ts[i],
            v,
        ),
        TypeV::Or(ts) => or_any(ts, v),
        TypeV::Custom(_) => false,
    }
}

/// How a record's key shape constrains a mapping: a string key admits
/// every entry, a numeric key admits entries whose key parses as a number,
/// a string or numeric literal requires a matching entry, an intersection
/// constrains the entries whose key every member admits as a string value,
/// and a union must be satisfied by every alternative; any other key shape
/// admits no entry at all.  Admitted entries must carry a conforming
/// value.
pub open spec fn record_key_match(key: TypeV, val: TypeV, ms: Seq<(Seq<char>, JsonV)>) -> bool
    decreases rank(key) + rank(val), 0int,
        via record_key_match_decreases
{
    match key {
        TypeV::String => forall|i: int| 0 <= i < ms.len() ==> type_assignable(
            val,
            (#[trigger] ms[i]).1,
        ),
        TypeV::Number => forall|i: int| 0 <= i < ms.len() ==> (parse_dec_spec(
            (#[trigger] ms[i]).0,
        ) is Some && type_assignable(val, ms[i].1)),
        TypeV::Literal(l) => match l {
            LiteralV::String(s) => exists|i: int| 0 <= i < ms.len() && (#[trigger] ms[i]).0 == s
                && type_assignable(val, ms[i].1),
            LiteralV::Number(d) => exists|i: int| 0 <= i < ms.len() && parse_dec_spec(
                (#[trigger] ms[i]).0,
            ) == Option::Some(d) && type_assignable(val, ms[i].1),
            LiteralV::Boolean(_) => false,
        },
        TypeV::And(ks) => forall|i: int| 0 <= i < ms.len() ==> ((forall|j: int|
            0 <= j < ks.len() ==> type_assignable(#[trigger] ks[j], JsonV::String(ms[i].0)))
            ==> type_assignable(val, (#[trigger] ms[i]).1)),
        TypeV::Or(ks) => forall|j: int| 0 <= j < ks.len() ==> record_key_match(
            #[trigger] ks[j],
            val,
            ms,
        ),
        _ => false,
    }
}

/// Whether at least one member accepts the value.
pub open spec fn or_any(ts: Seq<TypeV>, v: JsonV) -> bool
    decreases ranks(ts), 2int,
        via or_any_decreases
{
    if ts.len() == 0 {
        false
    } else {
        type_assignable(ts.first(), v) || or_any(ts.drop_first(), v)
    }
}

#[via_fn]
proof fn or_any_decreases(ts: Seq<TypeV>, v: JsonV) {
    if ts.len() > 0 {
        assert(ranks(ts) == rank(ts.first()) + ranks(ts.drop_first()));
        lemma_rank_pos(ts.first());
    }
}

pub proof fn lemma_rank_pos(t: TypeV)
    ensures
        rank(t) >= 1,
{
}

/// A value one member accepts, the union accepts.
pub proof fn lemma_or_any_intro(ts: Seq<TypeV>, v: JsonV, j: int)
    requires
        0 <= j < ts.len(),
        type_assignable(ts[j], v),
    ensures
        or_any(ts, v),
    decreases ts.len(),
{
    if j == 0 {
        assert(ts.first() == ts[0]);
    } else {
        assert(ts.drop_first()[j - 1] == ts[j]);
        lemma_or_any_intro(ts.drop_first(), v, j - 1);
    }
}

/// A value no member accepts, the union rejects.
pub proof fn lemma_or_any_none(ts: Seq<TypeV>, v: JsonV)
    requires
        forall|i: int| 0 <= i < ts.len() ==> !type_assignable(#[trigger] ts[i], v),
    ensures
        !or_any(ts, v),
    decreases ts.len(),
{
    if ts.len() > 0 {
        assert(ts.first() == ts[0]);
        assert forall|i: int| 0 <= i < ts.drop_first().len() implies !type_assignable(
            #[trigger] ts.drop_first()[i],
            v,
        ) by {
            assert(ts.drop_first()[i] == ts[i + 1]);
        }
        lemma_or_any_none(ts.drop_first(), v);
    }
}

#[via_fn]
proof fn type_assignable_decreases(t: TypeV, v: JsonV) {
    match t {
        TypeV::Tuple(tp) => {
            assert forall|i: int| 0 <= i < tp.items.len() implies rank(#[trigger] tp.items[i])
                < rank(t) by {
                lemma_ranks_elem(tp.items, i);
            }
        },
        TypeV::Object(o) => {
            assert forall|i: int| 0 <= i < o.properties.len() implies rank(
                (#[trigger] o.properties[i]).1.ty,
            ) < rank(t) by {
                lemma_props_rank_elem(o.properties, i);
            }
        },
        TypeV::And(ts) => {
            assert forall|i: int| 0 <= i < ts.len() implies rank(#[trigger] ts[i]) < rank(t) by {
                lemma_ranks_elem(ts, i);
            }
        },
        TypeV::Or(ts) => {
            assert(rank(t) == 1 + ranks(ts));
        },
        _ => {},
    }
}

#[via_fn]
proof fn record_key_match_decreases(key: TypeV, val: TypeV, ms: Seq<(Seq<char>, JsonV)>) {
    match key {
        TypeV::And(ks) => {
            assert forall|j: int| 0 <= j < ks.len() implies rank(#[trigger] ks[j]) < rank(key)
                + rank(val) by {
                lemma_ranks_elem(ks, j);
            }
        },
        TypeV::Or(ks) => {
            assert forall|j: int| 0 <= j < ks.len() implies rank(#[trigger] ks[j]) + rank(val)
                < rank(key) + rank(val) by {
                lemma_ranks_elem(ks, j);
            }
        },
        _ => {},
    }
}


// ===================================================================
// Executable checking
// ===================================================================

proof fn lemma_member_get_found(ms: Seq<(Seq<char>, JsonV)>, k: Seq<char>, j: int)
    requires
        0 <= j < ms.len(),
        ms[j].0 == k,
        forall|l: int| 0 <= l < j ==> (#[trigger] ms[l]).0 != k,
    ensures
        member_get(ms, k) == Option::Some(ms[j].1),
    decreases ms.len(),
{
    if j == 0 {
        assert(ms.first() == ms[0]);
    } else {
        assert(ms.first().0 != k) by {
            assert(ms[0].0 != k);
        }
        assert forall|l: int| 0 <= l < j - 1 implies (#[trigger] ms.drop_first()[l]).0 != k by {
            assert(ms.drop_first()[l] == ms[l + 1]);
        }
        assert(ms.drop_first()[j - 1] == ms[j]);
        lemma_member_get_found(ms.drop_first(), k, j - 1);
    }
}

proof fn lemma_member_get_absent(ms: Seq<(Seq<char>, JsonV)>, k: Seq<char>)
    requires
        forall|l: int| 0 <= l < ms.len() ==> (#[trigger] ms[l]).0 != k,
    ensures
        member_get(ms, k) is None,
    decreases ms.len(),
{
    if ms.len() > 0 {
        assert(ms.first().0 != k) by {
            assert(ms[0].0 != k);
        }
        assert forall|l: int| 0 <= l < ms.drop_first().len() implies
            (#[trigger] ms.drop_first()[l]).0 != k by {
            assert(ms.drop_first()[l] == ms[l + 1]);
        }
        lemma_member_get_absent(ms.drop_first(), k);
    }
}

/// Look a key up in a mapping's entries, first match wins.
#[verifier::loop_isolation(false)]
fn obj_get<'a>(ms: &'a Vec<(String, JsonValue)>, key: &String) -> (r: Option<&'a JsonValue>)
    ensures
        match r {
            Option::Some(w) => member_get(view_members(ms@), key@) == Option::Some(w.view()),
            Option::None => member_get(view_members(ms@), key@) is None,
        },
{
    proof {
        lemma_view_members(ms@);
    }
    let n = ms.len();
    let mut i: usize = 0;
    while i < n
        invariant
            i <= n,
            forall|l: int| 0 <= l < i ==> (#[trigger] view_members(ms@)[l]).0 != key@,
        decreases n - i,
    {
        if ms[i].0.eq(key) {
            proof {
                lemma_member_get_found(view_members(ms@), key@, i as int);
            }
            return Option::Some(&ms[i].1);
        }
        i += 1;
    }
    proof {
        lemma_member_get_absent(view_members(ms@), key@);
    }
    Option::None
}

/// Whether a value is exactly the literal.
pub fn check_literal(l: &Literal, v: &JsonValue) -> (r: bool)
    ensures
        r == literal_assignable(l.view(), v.view()),
{
    match (l, v) {
        (Literal::String(a), JsonValue::String(b)) => a.eq(b),
        (Literal::Number(a), JsonValue::Number(b)) => a.dec_eq(b),
        (Literal::Boolean(a), JsonValue::Bool(b)) => a == b,
        _ => false,
    }
}

/// Structural conformance of a decoded value to a shape.
#[verifier::loop_isolation(false)]
pub fn check_type(t: &Type, v: &JsonValue) -> (r: bool)
    ensures
        r == type_assignable(t.view(), v.view()),
    decreases rank(t.view()), 3int,
{
    match t {
        Type::String => matches!(v, JsonValue::String(_)),
        Type::Number => matches!(v, JsonValue::Number(_)),
        Type::Boolean => matches!(v, JsonValue::Bool(_)),
        Type::Null => matches!(v, JsonValue::Null),
        Type::Undefined => false,
        Type::Never => false,
        Type::Literal(l) => check_literal(l, v),
        Type::Tuple(tp) => check_tuple(tp, v),
        Type::Array(a) => check_array(a, v),
        Type::Object(o) => check_object(o, v),
        Type::Record(rc) => check_record(rc, v),
        Type::And(ts) => {
            match v {
                _ => {
                    proof {
                        lemma_view_types(ts@);
                    }
                    let n = ts.len();
                    if n == 0 {
                        return false;
                    }
                    let mut i: usize = 0;
                    while i < n
                        invariant
                            i <= n,
                            forall|l: int| 0 <= l < i ==> type_assignable(
                                #[trigger] view_types(ts@)[l],
                                v.view(),
                            ),
                        decreases n - i,
                    {
                        proof {
                            lemma_ranks_elem(view_types(ts@), i as int);
                        }
                        if !check_type(&ts[i], v) {
                            return false;
                        }
                        i += 1;
                    }
                    true
                },
            }
        },
        Type::Or(ts) => {
            proof {
                lemma_view_types(ts@);
            }
            let n = ts.len();
            let mut i: usize = 0;
            while i < n
                invariant
                    i <= n,
                    forall|l: int| 0 <= l < i ==> !type_assignable(
                        #[trigger] view_types(ts@)[l],
                        v.view(),
                    ),
                decreases n - i,
            {
                proof {
                    lemma_ranks_elem(view_types(ts@), i as int);
                }
                if check_type(&ts[i], v) {
                    proof {
                        lemma_or_any_intro(view_types(ts@), v.view(), i as int);
                    }
                    return true;
                }
                i += 1;
            }
            proof {
                lemma_or_any_none(view_types(ts@), v.view());
            }
            false
        },
        Type::Custom(_) => false,
    }
}

/// Tuple slots checked pairwise, the trailing slot over the extras when
/// set.
#[verifier::loop_isolation(false)]
pub fn check_tuple(tp: &Tuple, v: &JsonValue) -> (r: bool)
    ensures
        r == type_assignable(TypeV::Tuple(tp.view()), v.view()),
    decreases rank(TypeV::Tuple(tp.view())), 2int,
{
    match v {
        JsonValue::Array(items) => {
            proof {
                lemma_view_types(tp.items@);
                lemma_view_jsons(items@);
                assert(v.view() == JsonV::Array(view_jsons(items@)));
            }
            let n = tp.items.len();
            let m = items.len();
            if m < n {
                return false;
            }
            let mut i: usize = 0;
            while i < n
                invariant
                    i <= n,
                    m == items@.len(),
                    n <= m,
                    forall|l: int| 0 <= l < i ==> type_assignable(
                        #[trigger] view_types(tp.items@)[l],
                        view_jsons(items@)[l],
                    ),
                decreases n - i,
            {
                proof {
                    lemma_ranks_elem(view_types(tp.items@), i as int);
                }
                if !check_type(&tp.items[i], &items[i]) {
                    proof {
                        assert(!type_assignable(
                            view_types(tp.items@)[i as int],
                            view_jsons(items@)[i as int],
                        ));
                    }
                    return false;
                }
                i += 1;
            }
            match &tp.rest {
                Option::None => true,
                Option::Some(rest) => {
                    let mut j: usize = n;
                    while j < m
                        invariant
                            n <= j <= m,
                            m == items@.len(),
                            forall|l: int| n <= l < j ==> type_assignable(
                                rest.view(),
                                #[trigger] view_jsons(items@)[l],
                            ),
                        decreases m - j,
                    {
                        if !check_type(rest, &items[j]) {
                            proof {
                                assert(!type_assignable(
                                    rest.view(),
                                    view_jsons(items@)[j as int],
                                ));
                            }
                            return false;
                        }
                        j += 1;
                    }
                    true
                },
            }
        },
        _ => false,
    }
}

/// Every element must conform to the item shape.
#[verifier::loop_isolation(false)]
pub fn check_array(a: &Array, v: &JsonValue) -> (r: bool)
    ensures
        r == type_assignable(TypeV::Array(a.view()), v.view()),
    decreases rank(TypeV::Array(a.view())), 2int,
{
    match v {
        JsonValue::Array(items) => {
            proof {
                lemma_view_jsons(items@);
                assert(v.view() == JsonV::Array(view_jsons(items@)));
            }
            let n = items.len();
            let mut i: usize = 0;
            while i < n
                invariant
                    i <= n,
                    n == items@.len(),
                    forall|l: int| 0 <= l < i ==> type_assignable(
                        a.item.view(),
                        #[trigger] view_jsons(items@)[l],
                    ),
                decreases n - i,
            {
                if !check_type(&a.item, &items[i]) {
                    proof {
                        assert(!type_assignable(a.item.view(), view_jsons(items@)[i as int]));
                        assert(*(a.view().item) == a.item.view());
                        lemma_array_not_assignable(a.view(), v.view(), i as int);
                    }
                    return false;
                }
                i += 1;
            }
            true
        },
        _ => false,
    }
}

/// Every declared property must be present and conforming, or absent and
/// optional; undeclared keys are ignored.
#[verifier::loop_isolation(false)]
pub fn check_object(o: &Object, v: &JsonValue) -> (r: bool)
    ensures
        r == type_assignable(TypeV::Object(o.view()), v.view()),
    decreases rank(TypeV::Object(o.view())), 2int,
{
    match v {
        JsonValue::Object(ms) => {
            proof {
                lemma_view_props(o.properties@);
                assert(v.view() == JsonV::Object(view_members(ms@)));
            }
            let n = o.properties.len();
            let mut i: usize = 0;
            while i < n
                invariant
                    i <= n,
                    n == o.properties@.len(),
                    forall|l: int| 0 <= l < i ==> {
                        let p = #[trigger] view_props(o.properties@)[l];
                        match member_get(view_members(ms@), p.0) {
                            Option::Some(w) => type_assignable(p.1.ty, w),
                            Option::None => p.1.optional,
                        }
                    },
                decreases n - i,
            {
                proof {
                    lemma_props_rank_elem(view_props(o.properties@), i as int);
                }
                let prop = &o.properties[i];
                let found = obj_get(ms, &prop.0);
                match found {
                    Option::Some(w) => {
                        if !check_type(&prop.1.ty, w) {
                            return false;
                        }
                    },
                    Option::None => {
                        if !prop.1.optional {
                            return false;
                        }
                    },
                }
                i += 1;
            }
            true
        },
        _ => false,
    }
}

/// A record accepts a mapping when it is optional, or when its key and
/// value shapes admit every entry.
pub fn check_record(rc: &Record, v: &JsonValue) -> (r: bool)
    ensures
        r == type_assignable(TypeV::Record(rc.view()), v.view()),
    decreases rank(TypeV::Record(rc.view())), 2int,
{
    match v {
        JsonValue::Object(ms) => {
            proof {
                assert(v.view() == JsonV::Object(view_members(ms@)));
            }
            if rc.optional {
                true
            } else {
                check_record_key(&rc.key, &rc.value, ms)
            }
        },
        _ => false,
    }
}

/// How the key shape constrains the mapping's entries.
#[verifier::loop_isolation(false)]
pub fn check_record_key(key: &Type, val: &Type, ms: &Vec<(String, JsonValue)>) -> (r: bool)
    ensures
        r == record_key_match(key.view(), val.view(), view_members(ms@)),
    decreases rank(key.view()) + rank(val.view()), 1int,
{
    proof {
        lemma_view_members(ms@);
    }
    let n = ms.len();
    match key {
        Type::String => {
            let mut i: usize = 0;
            while i < n
                invariant
                    i <= n,
                    n == ms@.len(),
                    forall|l: int| 0 <= l < i ==> type_assignable(
                        val.view(),
                        (#[trigger] view_members(ms@)[l]).1,
                    ),
                decreases n - i,
            {
                if !check_type(val, &ms[i].1) {
                    proof {
                        assert(!type_assignable(val.view(), view_members(ms@)[i as int].1));
                    }
                    return false;
                }
                i += 1;
            }
            true
        },
        Type::Number => {
            let mut i: usize = 0;
            while i < n
                invariant
                    i <= n,
                    n == ms@.len(),
                    forall|l: int| 0 <= l < i ==> (parse_dec_spec(
                        (#[trigger] view_members(ms@)[l]).0,
                    ) is Some && type_assignable(val.view(), view_members(ms@)[l].1)),
                decreases n - i,
            {
                let parsed = Decimal::parse(ms[i].0.as_str());
                if parsed.is_none() {
                    proof {
                        assert(parse_dec_spec(view_members(ms@)[i as int].0) is None);
                    }
                    return false;
                }
                if !check_type(val, &ms[i].1) {
                    proof {
                        assert(!type_assignable(val.view(), view_members(ms@)[i as int].1));
                    }
                    return false;
                }
                i += 1;
            }
            true
        },
        Type::Literal(l) => {
            match l {
                Literal::String(s) => {
                    let mut i: usize = 0;
                    while i < n
                        invariant
                            i <= n,
                            n == ms@.len(),
                            forall|l2: int| 0 <= l2 < i ==> !((#[trigger] view_members(ms@)[l2]).0
                                == s@ && type_assignable(val.view(), view_members(ms@)[l2].1)),
                        decreases n - i,
                    {
                        if ms[i].0.eq(s) {
                            if check_type(val, &ms[i].1) {
                                proof {
                                    assert(view_members(ms@)[i as int].0 == s@);
                                    assert(type_assignable(
                                        val.view(),
                                        view_members(ms@)[i as int].1,
                                    ));
                                }
                                return true;
                            }
                        }
                        i += 1;
                    }
                    false
                },
                Literal::Number(d) => {
                    let mut i: usize = 0;
                    while i < n
                        invariant
                            i <= n,
                            n == ms@.len(),
                            forall|l2: int| 0 <= l2 < i ==> !(parse_dec_spec(
                                (#[trigger] view_members(ms@)[l2]).0,
                            ) == Option::Some(d.view()) && type_assignable(
                                val.view(),
                                view_members(ms@)[l2].1,
                            )),
                        decreases n - i,
                    {
                        let parsed = Decimal::parse(ms[i].0.as_str());
                        match parsed {
                            Option::Some(p) => {
                                if p.dec_eq(d) {
                                    if check_type(val, &ms[i].1) {
                                        proof {
                                            assert(parse_dec_spec(view_members(ms@)[i as int].0)
                                                == Option::Some(d.view()));
                                            assert(type_assignable(
                                                val.view(),
                                                view_members(ms@)[i as int].1,
                                            ));
                                        }
                                        return true;
                                    }
                                } else {
                                }
                            },
                            Option::None => {},
                        }
                        i += 1;
                    }
                    false
                },
                Literal::Boolean(_) => false,
            }
        },
        Type::And(ks) => {
            proof {
                lemma_view_types(ks@);
            }
            let kn = ks.len();
            let mut i: usize = 0;
            while i < n
                invariant
                    i <= n,
                    n == ms@.len(),
                    kn == ks@.len(),
                    forall|l: int| 0 <= l < i ==> ((forall|j: int|
                        0 <= j < view_types(ks@).len() ==> type_assignable(
                            #[trigger] view_types(ks@)[j],
                            JsonV::String(view_members(ms@)[l].0),
                        )) ==> type_assignable(val.view(), (#[trigger] view_members(ms@)[l]).1)),
                decreases n - i,
            {
                let key_value = JsonValue::String(ms[i].0.clone());
                let mut all_match = true;
                let mut j: usize = 0;
                while j < kn
                    invariant
                        j <= kn,
                        i < n,
                        n == ms@.len(),
                        kn == ks@.len(),
                        key_value.view() == JsonV::String(view_members(ms@)[i as int].0),
                        all_match == (forall|j2: int| 0 <= j2 < j ==> type_assignable(
                            #[trigger] view_types(ks@)[j2],
                            JsonV::String(view_members(ms@)[i as int].0),
                        )),
                    decreases kn - j,
                {
                    proof {
                        lemma_ranks_elem(view_types(ks@), j as int);
                    }
                    if !check_type(&ks[j], &key_value) {
                        all_match = false;
                    }
                    j += 1;
                }
                if all_match {
                    if !check_type(val, &ms[i].1) {
                        return false;
                    }
                }
                i += 1;
            }
            true
        },
        Type::Or(ks) => {
            proof {
                lemma_view_types(ks@);
            }
            let kn = ks.len();
            let mut j: usize = 0;
            while j < kn
                invariant
                    j <= kn,
                    kn == ks@.len(),
                    forall|l: int| 0 <= l < j ==> record_key_match(
                        #[trigger] view_types(ks@)[l],
                        val.view(),
                        view_members(ms@),
                    ),
                decreases kn - j,
            {
                proof {
                    lemma_ranks_elem(view_types(ks@), j as int);
                }
                if !check_record_key(&ks[j], val, ms) {
                    return false;
                }
                j += 1;
            }
            true
        },
        _ => false,
    }
}

// ===================================================================
// The trait
// ===================================================================

/// Conformance of a decoded value to this shape.
pub trait IsAsignable {
    spec fn assignable_spec(&self, v: &JsonValue) -> bool;

    fn is_assignable(&self, v: &JsonValue) -> (r: bool)
        ensures
            r == self.assignable_spec(v),
    ;
}

impl IsAsignable for Type {
    open spec fn assignable_spec(&self, v: &JsonValue) -> bool {
        type_assignable(self.view(), v.view())
    }

    fn is_assignable(&self, v: &JsonValue) -> (r: bool)
        ensures
            r == self.assignable_spec(v),
    {
        check_type(self, v)
    }
}

impl IsAsignable for Literal {
    open spec fn assignable_spec(&self, v: &JsonValue) -> bool {
        literal_assignable(self.view(), v.view())
    }

    fn is_assignable(&self, v: &JsonValue) -> (r: bool)
        ensures
            r == self.assignable_spec(v),
    {
        check_literal(self, v)
    }
}

impl IsAsignable for Tuple {
    open spec fn assignable_spec(&self, v: &JsonValue) -> bool {
        type_assignable(TypeV::Tuple(self.view()), v.view())
    }

    fn is_assignable(&self, v: &JsonValue) -> (r: bool)
        ensures
            r == self.assignable_spec(v),
    {
        check_tuple(self, v)
    }
}

impl IsAsignable for Array {
    open spec fn assignable_spec(&self, v: &JsonValue) -> bool {
        type_assignable(TypeV::Array(self.view()), v.view())
    }

    fn is_assignable(&self, v: &JsonValue) -> (r: bool)
        ensures
            r == self.assignable_spec(v),
    {
        check_array(self, v)
    }
}

impl IsAsignable for Object {
    open spec fn assignable_spec(&self, v: &JsonValue) -> bool {
        type_assignable(TypeV::Object(self.view()), v.view())
    }

    fn is_assignable(&self, v: &JsonValue) -> (r: bool)
        ensures
            r == self.assignable_spec(v),
    {
        check_object(self, v)
    }
}

impl IsAsignable for Record {
    open spec fn assignable_spec(&self, v: &JsonValue) -> bool {
        type_assignable(TypeV::Record(self.view()), v.view())
    }

    fn is_assignable(&self, v: &JsonValue) -> (r: bool)
        ensures
            r == self.assignable_spec(v),
    {
        check_record(self, v)
    }
}


proof fn lemma_array_not_assignable(av: ArrayV, vv: JsonV, i: int)
    requires
        vv matches JsonV::Array(items) && 0 <= i < items.len() && !type_assignable(
            *av.item,
            items[i],
        ),
    ensures
        !type_assignable(TypeV::Array(av), vv),
{
}


} // verus!
