use vstd::prelude::*;
use crate::num::{Decimal, DecimalV};

verus! {

/// The abstract shape of a serialized value, mirroring how such a value can
/// be described in a structural type language.
#[derive(Debug, PartialEq)]
pub enum Type {
    Null,
    Undefined,
    Never,
    Boolean,
    Number,
    String,
    Literal(Literal),
    Tuple(Tuple),
    Array(Array),
    Object(Object),
    Record(Record),
    And(Vec<Type>),
    Or(Vec<Type>),
    /// An opaque named type, taken verbatim; never assignable from a value.
    Custom(String),
}

/// Fixed positional slots, plus an optional homogeneous trailing slot.
#[derive(Debug, PartialEq)]
pub struct Tuple {
    pub items: Vec<Type>,
    pub rest: Option<Box<Type>>,
}

/// A homogeneous sequence.
#[derive(Debug, PartialEq)]
pub struct Array {
    pub item: Box<Type>,
}

/// Named properties in declaration order; names are unique within one
/// object, and the order is observable.
#[derive(Debug, PartialEq)]
pub struct Object {
    pub properties: Vec<(String, Property)>,
}

/// A homogeneous key/value mapping; `optional` marks a mapping that may be
/// absent as a whole.
#[derive(Debug, PartialEq)]
pub struct Record {
    pub optional: bool,
    pub readonly: bool,
    pub key: Box<Type>,
    pub value: Box<Type>,
}

/// One object member: its shape, whether the key may be absent, and whether
/// it is read-only.
#[derive(Debug, PartialEq)]
pub struct Property {
    pub optional: bool,
    pub readonly: bool,
    pub ty: Type,
}

/// One concrete value, used for discriminant tags and unit variants.
#[derive(Debug, PartialEq)]
pub enum Literal {
    Boolean(bool),
    Number(Decimal),
    String(String),
}

/// Mathematical model of [`Type`].
#[verifier::ext_equal]
pub enum TypeV {
    Null,
    Undefined,
    Never,
    Boolean,
    Number,
    String,
    Literal(LiteralV),
    Tuple(TupleV),
    Array(ArrayV),
    Object(ObjectV),
    Record(RecordV),
    And(Seq<TypeV>),
    Or(Seq<TypeV>),
    Custom(Seq<char>),
}

#[verifier::ext_equal]
pub struct TupleV {
    pub items: Seq<TypeV>,
    pub rest: Option<Box<TypeV>>,
}

#[verifier::ext_equal]
pub struct ArrayV {
    pub item: Box<TypeV>,
}

#[verifier::ext_equal]
pub struct ObjectV {
    pub properties: Seq<(Seq<char>, PropertyV)>,
}

#[verifier::ext_equal]
pub struct RecordV {
    pub optional: bool,
    pub readonly: bool,
    pub key: Box<TypeV>,
    pub value: Box<TypeV>,
}

#[verifier::ext_equal]
pub struct PropertyV {
    pub optional: bool,
    pub readonly: bool,
    pub ty: TypeV,
}

#[verifier::ext_equal]
pub enum LiteralV {
    Boolean(bool),
    Number(DecimalV),
    String(Seq<char>),
}

/// The models of a sequence of shapes, elementwise.
pub open spec fn view_types(s: Seq<Type>) -> Seq<TypeV>
    decreases s,
{
    if s.len() == 0 {
        Seq::empty()
    } else {
        seq![s.first().view()] + view_types(s.drop_first())
    }
}

/// The models of an object's properties, elementwise.
pub open spec fn view_props(s: Seq<(String, Property)>) -> Seq<(Seq<char>, PropertyV)>
    decreases s,
{
    if s.len() == 0 {
        Seq::empty()
    } else {
        seq![(s.first().0@, s.first().1.view())] + view_props(s.drop_first())
    }
}

pub broadcast proof fn lemma_view_types(s: Seq<Type>)
    ensures
        (#[trigger] view_types(s)).len() == s.len(),
        forall|i: int| 0 <= i < s.len() ==> #[trigger] view_types(s)[i] == s[i].view(),
    decreases s.len(),
{
    if s.len() > 0 {
        lemma_view_types(s.drop_first());
        assert forall|i: int| 0 <= i < s.len() implies #[trigger] view_types(s)[i] == s[i].view() by {
            if i == 0 {
                assert(view_types(s)[0] == s.first().view());
            } else {
                assert(view_types(s)[i] == view_types(s.drop_first())[i - 1]);
                assert(s.drop_first()[i - 1] == s[i]);
            }
        }
    }
}

pub broadcast proof fn lemma_view_props(s: Seq<(String, Property)>)
    ensures
        (#[trigger] view_props(s)).len() == s.len(),
        forall|i: int| 0 <= i < s.len() ==> #[trigger] view_props(s)[i] == (s[i].0@, s[i].1.view()),
    decreases s.len(),
{
    if s.len() > 0 {
        lemma_view_props(s.drop_first());
        assert forall|i: int| 0 <= i < s.len() implies #[trigger] view_props(s)[i] == (s[i].0@,
            s[i].1.view()) by {
            if i == 0 {
                assert(view_props(s)[0] == (s.first().0@, s.first().1.view()));
            } else {
                assert(view_props(s)[i] == view_props(s.drop_first())[i - 1]);
                assert(s.drop_first()[i - 1] == s[i]);
            }
        }
    }
}

impl Type {
    pub open spec fn view(&self) -> TypeV
        decreases self,
    {
        match self {
            Type::Null => TypeV::Null,
            Type::Undefined => TypeV::Undefined,
            Type::Never => TypeV::Never,
            Type::Boolean => TypeV::Boolean,
            Type::Number => TypeV::Number,
            Type::String => TypeV::String,
            Type::Literal(l) => TypeV::Literal(l.view()),
            Type::Tuple(t) => TypeV::Tuple(t.view()),
            Type::Array(a) => TypeV::Array(a.view()),
            Type::Object(o) => TypeV::Object(o.view()),
            Type::Record(r) => TypeV::Record(r.view()),
            Type::And(ts) => TypeV::And(view_types(ts@)),
            Type::Or(ts) => TypeV::Or(view_types(ts@)),
            Type::Custom(s) => TypeV::Custom(s@),
        }
    }
}

impl Tuple {
    pub open spec fn view(&self) -> TupleV
        decreases self,
    {
        TupleV {
            items: view_types(self.items@),
            rest: match &self.rest {
                Option::None => Option::None,
                Option::Some(t) => Option::Some(Box::new(t.view())),
            },
        }
    }
}

impl Array {
    pub open spec fn view(&self) -> ArrayV
        decreases self,
    {
        ArrayV { item: Box::new(self.item.view()) }
    }
}

impl Object {
    pub open spec fn view(&self) -> ObjectV
        decreases self,
    {
        ObjectV { properties: view_props(self.properties@) }
    }
}

impl Record {
    pub open spec fn view(&self) -> RecordV
        decreases self,
    {
        RecordV {
            optional: self.optional,
            readonly: self.readonly,
            key: Box::new(self.key.view()),
            value: Box::new(self.value.view()),
        }
    }
}

impl Property {
    pub open spec fn view(&self) -> PropertyV
        decreases self,
    {
        PropertyV { optional: self.optional, readonly: self.readonly, ty: self.ty.view() }
    }
}

impl Literal {
    pub open spec fn view(&self) -> LiteralV {
        match self {
            Literal::Boolean(b) => LiteralV::Boolean(*b),
            Literal::Number(d) => LiteralV::Number(d.view()),
            Literal::String(s) => LiteralV::String(s@),
        }
    }
}

/// A deep copy whose model is the model of the original.
#[verifier::loop_isolation(false)]
pub fn clone_type(t: &Type) -> (r: Type)
    ensures
        r.view() == t.view(),
    decreases t,
{
    match t {
        Type::Null => Type::Null,
        Type::Undefined => Type::Undefined,
        Type::Never => Type::Never,
        Type::Boolean => Type::Boolean,
        Type::Number => Type::Number,
        Type::String => Type::String,
        Type::Literal(l) => {
            let c = match l {
                Literal::Boolean(b) => Literal::Boolean(*b),
                Literal::Number(d) => Literal::Number(d.clone()),
                Literal::String(s) => Literal::String(s.clone()),
            };
            Type::Literal(c)
        },
        Type::Tuple(tp) => {
            let items = clone_types(&tp.items);
            let rest = match &tp.rest {
                Option::None => Option::None,
                Option::Some(b) => Option::Some(Box::new(clone_type(b))),
            };
            let r = Type::Tuple(Tuple { items, rest });
            proof {
                assert(r.view() =~= t.view());
            }
            r
        },
        Type::Array(a) => {
            let r = Type::Array(Array { item: Box::new(clone_type(&a.item)) });
            proof {
                assert(r.view() =~= t.view());
            }
            r
        },
        Type::Object(o) => {
            let mut props: Vec<(String, Property)> = Vec::new();
            let n = o.properties.len();
            let mut i: usize = 0;
            while i < n
                invariant
                    n == o.properties.len(),
                    i <= n,
                    props@.len() == i,
                    forall|j: int| 0 <= j < i ==> #[trigger] props@[j].0@ == o.properties@[j].0@
                        && props@[j].1.view() == o.properties@[j].1.view(),
                decreases n - i,
            {
                let pair = &o.properties[i];
                proof {
                    let props = o.properties@;
                    assert(decreases_to!(*o => props));
                    assert(decreases_to!(props => props[i as int]));
                    assert(decreases_to!(props[i as int] => props[i as int].1));
                    assert(decreases_to!(props[i as int].1 => props[i as int].1.ty));
                }
                let q = Property {
                    optional: pair.1.optional,
                    readonly: pair.1.readonly,
                    ty: clone_type(&pair.1.ty),
                };
                props.push((pair.0.clone(), q));
                i += 1;
            }
            let r = Type::Object(Object { properties: props });
            proof {
                lemma_view_props(props@);
                lemma_view_props(o.properties@);
                assert(view_props(props@) =~= view_props(o.properties@));
                assert(r.view() =~= t.view());
            }
            r
        },
        Type::Record(rc) => {
            let r = Type::Record(Record {
                optional: rc.optional,
                readonly: rc.readonly,
                key: Box::new(clone_type(&rc.key)),
                value: Box::new(clone_type(&rc.value)),
            });
            proof {
                assert(r.view() =~= t.view());
            }
            r
        },
        Type::And(ts) => {
            let r = Type::And(clone_types(ts));
            proof {
                assert(r.view() =~= t.view());
            }
            r
        },
        Type::Or(ts) => {
            let r = Type::Or(clone_types(ts));
            proof {
                assert(r.view() =~= t.view());
            }
            r
        },
        Type::Custom(s) => Type::Custom(s.clone()),
    }
}

/// Elementwise deep copy of a list of shapes.
pub fn clone_types(ts: &Vec<Type>) -> (r: Vec<Type>)
    ensures
        view_types(r@) == view_types(ts@),
        r@.len() == ts@.len(),
    decreases ts,
{
    let mut r: Vec<Type> = Vec::new();
    let n = ts.len();
    let mut i: usize = 0;
    while i < n
        invariant
            n == ts@.len(),
            i <= n,
            r@.len() == i,
            forall|j: int| 0 <= j < i ==> (#[trigger] r@[j]).view() == ts@[j].view(),
        decreases n - i,
    {
        proof {
            assert(decreases_to!(ts@ => ts@[i as int]));
        }
        let c = clone_type(&ts[i]);
        r.push(c);
        i += 1;
    }
    proof {
        lemma_view_types(r@);
        lemma_view_types(ts@);
        assert(view_types(r@) =~= view_types(ts@));
    }
    r
}

} // verus!
