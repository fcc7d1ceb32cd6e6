use vstd::prelude::*;

verus! {

/// One of the eight identifier case conventions a rename-all annotation can
/// name.
#[derive(Debug, Clone, Copy, PartialEq, Eq)]
pub enum Inflection {
    Lower,
    Upper,
    Pascal,
    Camel,
    Snake,
    ScreamingSnake,
    Kebab,
    ScreamingKebab,
}

/// A value that is either given once for both directions, or split into a
/// serialize side and a deserialize side, each optional.
#[derive(Debug, Clone, PartialEq)]
pub enum Complex<T> {
    Single(T),
    Complex { serialize: Option<T>, deserialize: Option<T> },
}

/// The explicit serialize/deserialize pair form of a [`Complex`] value.
#[derive(Debug, Clone, PartialEq)]
pub struct SerDe<T> {
    pub serialize: Option<T>,
    pub deserialize: Option<T>,
}

/// A marker that may carry a payload whose content does not matter, only
/// its presence.
#[derive(Debug, Clone, PartialEq)]
pub enum UnitOr<T> {
    Unit,
    Value(T),
}

/// Model of a [`Complex`] value.
#[verifier::ext_equal]
pub enum ComplexV<T> {
    Single(T),
    Pair { serialize: Option<T>, deserialize: Option<T> },
}

impl Complex<Inflection> {
    pub open spec fn view(&self) -> ComplexV<Inflection> {
        match self {
            Complex::Single(v) => ComplexV::Single(*v),
            Complex::Complex { serialize, deserialize } => ComplexV::Pair {
                serialize: *serialize,
                deserialize: *deserialize,
            },
        }
    }
}

impl Complex<String> {
    pub open spec fn view(&self) -> ComplexV<Seq<char>> {
        match self {
            Complex::Single(v) => ComplexV::Single(v@),
            Complex::Complex { serialize, deserialize } => ComplexV::Pair {
                serialize: match serialize {
                    Option::None => Option::None,
                    Option::Some(s) => Option::Some(s@),
                },
                deserialize: match deserialize {
                    Option::None => Option::None,
                    Option::Some(s) => Option::Some(s@),
                },
            },
        }
    }
}

pub open spec fn view_opt_inflections(o: &Option<Complex<Inflection>>) -> Option<
    ComplexV<Inflection>,
> {
    match o {
        Option::None => Option::None,
        Option::Some(c) => Option::Some(c.view()),
    }
}

pub open spec fn view_opt_renames(o: &Option<Complex<String>>) -> Option<ComplexV<Seq<char>>> {
    match o {
        Option::None => Option::None,
        Option::Some(c) => Option::Some(c.view()),
    }
}

pub open spec fn view_opt_string(o: &Option<String>) -> Option<Seq<char>> {
    match o {
        Option::None => Option::None,
        Option::Some(s) => Option::Some(s@),
    }
}

/// The annotations recognized on a struct or enum as a whole.
#[derive(Debug)]
pub struct ContainerAttrs {
    pub rename_all: Option<Complex<Inflection>>,
    pub rename_all_fields: Option<Complex<Inflection>>,
    pub tag: Option<String>,
    pub content: Option<String>,
    pub untagged: Option<()>,
    pub transparent: Option<()>,
    pub from: Option<Box<Ty>>,
    pub try_from: Option<Box<Ty>>,
    pub into: Option<Box<Ty>>,
    pub try_into: Option<Box<Ty>>,
    pub default: Option<UnitOr<String>>,
}

/// The annotations recognized on one enum variant.
#[derive(Debug)]
pub struct VariantAttrs {
    pub rename: Option<Complex<String>>,
    pub rename_all: Option<Complex<Inflection>>,
    pub skip: Option<()>,
    pub skip_serializing: Option<()>,
    pub skip_deserializing: Option<()>,
    pub untagged: Option<()>,
}

/// The annotations recognized on one field.
#[derive(Debug)]
pub struct FieldAttrs {
    pub rename: Option<Complex<String>>,
    pub default: Option<UnitOr<String>>,
    pub flatten: Option<()>,
    pub skip: Option<()>,
    pub skip_serializing: Option<()>,
    pub skip_deserializing: Option<()>,
    pub skip_serializing_if: Option<String>,
}

/// Model of [`ContainerAttrs`]; markers become booleans since only their
/// presence matters.
#[verifier::ext_equal]
pub struct ContainerAttrsV {
    pub rename_all: Option<ComplexV<Inflection>>,
    pub rename_all_fields: Option<ComplexV<Inflection>>,
    pub tag: Option<Seq<char>>,
    pub content: Option<Seq<char>>,
    pub untagged: bool,
    pub transparent: bool,
    pub from: Option<Box<TyV>>,
    pub try_from: Option<Box<TyV>>,
    pub into: Option<Box<TyV>>,
    pub try_into: Option<Box<TyV>>,
    pub default: bool,
}

#[verifier::ext_equal]
pub struct VariantAttrsV {
    pub rename: Option<ComplexV<Seq<char>>>,
    pub rename_all: Option<ComplexV<Inflection>>,
    pub skip: bool,
    pub skip_serializing: bool,
    pub skip_deserializing: bool,
    pub untagged: bool,
}

#[verifier::ext_equal]
pub struct FieldAttrsV {
    pub rename: Option<ComplexV<Seq<char>>>,
    pub default: bool,
    pub flatten: bool,
    pub skip: bool,
    pub skip_serializing: bool,
    pub skip_deserializing: bool,
    pub skip_serializing_if: bool,
}

impl VariantAttrs {
    pub open spec fn view(&self) -> VariantAttrsV {
        VariantAttrsV {
            rename: view_opt_renames(&self.rename),
            rename_all: view_opt_inflections(&self.rename_all),
            skip: self.skip is Some,
            skip_serializing: self.skip_serializing is Some,
            skip_deserializing: self.skip_deserializing is Some,
            untagged: self.untagged is Some,
        }
    }
}

impl FieldAttrs {
    pub open spec fn view(&self) -> FieldAttrsV {
        FieldAttrsV {
            rename: view_opt_renames(&self.rename),
            default: self.default is Some,
            flatten: self.flatten is Some,
            skip: self.skip is Some,
            skip_serializing: self.skip_serializing is Some,
            skip_deserializing: self.skip_deserializing is Some,
            skip_serializing_if: self.skip_serializing_if is Some,
        }
    }
}

/// A declarative reference to a member type: the built-in shapes of the
/// resolution protocol, plus inline struct and enum descriptors.
#[derive(Debug)]
pub enum Ty {
    /// Text; also covers string-like foreign types.
    String,
    /// Any numeric type.
    Number,
    Boolean,
    /// The unit type, serialized as null.
    Unit,
    /// An optional-valued wrapper around its member type.
    Optional(Box<Ty>),
    /// A reference, box, or shared-ownership wrapper: resolves as its
    /// member type does.
    Wrapper(Box<Ty>),
    /// A homogeneous sequence or set.
    List(Box<Ty>),
    /// A homogeneous key-value mapping.
    Dict(Box<Ty>, Box<Ty>),
    /// A fixed-size homogeneous array.
    FixedArray(Box<Ty>, usize),
    /// A heterogeneous fixed tuple.
    Tuple(Vec<Ty>),
    /// An opaque named type, declared by the user.
    Custom(String),
    Struct(Box<StructDef>),
    Enum(Box<EnumDef>),
}

/// The declared shape of a struct or of one enum variant's payload.
#[derive(Debug)]
pub enum Fields {
    Unit,
    Named(Vec<NamedField>),
    Unnamed(Vec<PosField>),
}

#[derive(Debug)]
pub struct NamedField {
    pub name: String,
    pub attrs: FieldAttrs,
    pub ty: Ty,
}

#[derive(Debug)]
pub struct PosField {
    pub attrs: FieldAttrs,
    pub ty: Ty,
}

#[derive(Debug)]
pub struct VariantDef {
    pub name: String,
    pub attrs: VariantAttrs,
    pub fields: Fields,
}

#[derive(Debug)]
pub struct StructDef {
    pub attrs: ContainerAttrs,
    pub fields: Fields,
}

#[derive(Debug)]
pub struct EnumDef {
    pub attrs: ContainerAttrs,
    pub variants: Vec<VariantDef>,
}

#[verifier::ext_equal]
pub enum TyV {
    String,
    Number,
    Boolean,
    Unit,
    Optional(Box<TyV>),
    Wrapper(Box<TyV>),
    List(Box<TyV>),
    Dict(Box<TyV>, Box<TyV>),
    FixedArray(Box<TyV>, nat),
    Tuple(Seq<TyV>),
    Custom(Seq<char>),
    Struct(Box<StructDefV>),
    Enum(Box<EnumDefV>),
}

#[verifier::ext_equal]
pub enum FieldsV {
    Unit,
    Named(Seq<NamedFieldV>),
    Unnamed(Seq<PosFieldV>),
}

#[verifier::ext_equal]
pub struct NamedFieldV {
    pub name: Seq<char>,
    pub attrs: FieldAttrsV,
    pub ty: TyV,
}

#[verifier::ext_equal]
pub struct PosFieldV {
    pub attrs: FieldAttrsV,
    pub ty: TyV,
}

#[verifier::ext_equal]
pub struct VariantDefV {
    pub name: Seq<char>,
    pub attrs: VariantAttrsV,
    pub fields: FieldsV,
}

#[verifier::ext_equal]
pub struct StructDefV {
    pub attrs: ContainerAttrsV,
    pub fields: FieldsV,
}

#[verifier::ext_equal]
pub struct EnumDefV {
    pub attrs: ContainerAttrsV,
    pub variants: Seq<VariantDefV>,
}

pub open spec fn view_tys(s: Seq<Ty>) -> Seq<TyV>
    decreases s,
{
    if s.len() == 0 {
        Seq::empty()
    } else {
        seq![s.first().view()] + view_tys(s.drop_first())
    }
}

pub open spec fn view_named_fields(s: Seq<NamedField>) -> Seq<NamedFieldV>
    decreases s,
{
    if s.len() == 0 {
        Seq::empty()
    } else {
        seq![s.first().view()] + view_named_fields(s.drop_first())
    }
}

pub open spec fn view_pos_fields(s: Seq<PosField>) -> Seq<PosFieldV>
    decreases s,
{
    if s.len() == 0 {
        Seq::empty()
    } else {
        seq![s.first().view()] + view_pos_fields(s.drop_first())
    }
}

pub open spec fn view_variants(s: Seq<VariantDef>) -> Seq<VariantDefV>
    decreases s,
{
    if s.len() == 0 {
        Seq::empty()
    } else {
        seq![s.first().view()] + view_variants(s.drop_first())
    }
}

pub broadcast proof fn lemma_view_tys(s: Seq<Ty>)
    ensures
        (#[trigger] view_tys(s)).len() == s.len(),
        forall|i: int| 0 <= i < s.len() ==> #[trigger] view_tys(s)[i] == s[i].view(),
    decreases s.len(),
{
    if s.len() > 0 {
        lemma_view_tys(s.drop_first());
        assert forall|i: int| 0 <= i < s.len() implies #[trigger] view_tys(s)[i]
            == s[i].view() by {
            if i == 0 {
                assert(view_tys(s)[0] == s.first().view());
            } else {
                assert(view_tys(s)[i] == view_tys(s.drop_first())[i - 1]);
                assert(s.drop_first()[i - 1] == s[i]);
            }
        }
    }
}

pub broadcast proof fn lemma_view_named_fields(s: Seq<NamedField>)
    ensures
        (#[trigger] view_named_fields(s)).len() == s.len(),
        forall|i: int| 0 <= i < s.len() ==> #[trigger] view_named_fields(s)[i] == s[i].view(),
    decreases s.len(),
{
    if s.len() > 0 {
        lemma_view_named_fields(s.drop_first());
        assert forall|i: int| 0 <= i < s.len() implies #[trigger] view_named_fields(s)[i]
            == s[i].view() by {
            if i == 0 {
                assert(view_named_fields(s)[0] == s.first().view());
            } else {
                assert(view_named_fields(s)[i] == view_named_fields(s.drop_first())[i - 1]);
                assert(s.drop_first()[i - 1] == s[i]);
            }
        }
    }
}

pub broadcast proof fn lemma_view_pos_fields(s: Seq<PosField>)
    ensures
        (#[trigger] view_pos_fields(s)).len() == s.len(),
        forall|i: int| 0 <= i < s.len() ==> #[trigger] view_pos_fields(s)[i] == s[i].view(),
    decreases s.len(),
{
    if s.len() > 0 {
        lemma_view_pos_fields(s.drop_first());
        assert forall|i: int| 0 <= i < s.len() implies #[trigger] view_pos_fields(s)[i]
            == s[i].view() by {
            if i == 0 {
                assert(view_pos_fields(s)[0] == s.first().view());
            } else {
                assert(view_pos_fields(s)[i] == view_pos_fields(s.drop_first())[i - 1]);
                assert(s.drop_first()[i - 1] == s[i]);
            }
        }
    }
}

pub broadcast proof fn lemma_view_variants(s: Seq<VariantDef>)
    ensures
        (#[trigger] view_variants(s)).len() == s.len(),
        forall|i: int| 0 <= i < s.len() ==> #[trigger] view_variants(s)[i] == s[i].view(),
    decreases s.len(),
{
    if s.len() > 0 {
        lemma_view_variants(s.drop_first());
        assert forall|i: int| 0 <= i < s.len() implies #[trigger] view_variants(s)[i]
            == s[i].view() by {
            if i == 0 {
                assert(view_variants(s)[0] == s.first().view());
            } else {
                assert(view_variants(s)[i] == view_variants(s.drop_first())[i - 1]);
                assert(s.drop_first()[i - 1] == s[i]);
            }
        }
    }
}

impl Ty {
    pub open spec fn view(&self) -> TyV
        decreases self,
    {
        match self {
            Ty::String => TyV::String,
            Ty::Number => TyV::Number,
            Ty::Boolean => TyV::Boolean,
            Ty::Unit => TyV::Unit,
            Ty::Optional(t) => TyV::Optional(Box::new(t.view())),
            Ty::Wrapper(t) => TyV::Wrapper(Box::new(t.view())),
            Ty::List(t) => TyV::List(Box::new(t.view())),
            Ty::Dict(k, v) => TyV::Dict(Box::new(k.view()), Box::new(v.view())),
            Ty::FixedArray(t, n) => TyV::FixedArray(Box::new(t.view()), *n as nat),
            Ty::Tuple(ts) => TyV::Tuple(view_tys(ts@)),
            Ty::Custom(s) => TyV::Custom(s@),
            Ty::Struct(sd) => TyV::Struct(Box::new(sd.view())),
            Ty::Enum(ed) => TyV::Enum(Box::new(ed.view())),
        }
    }
}

impl Fields {
    pub open spec fn view(&self) -> FieldsV
        decreases self,
    {
        match self {
            Fields::Unit => FieldsV::Unit,
            Fields::Named(fs) => FieldsV::Named(view_named_fields(fs@)),
            Fields::Unnamed(fs) => FieldsV::Unnamed(view_pos_fields(fs@)),
        }
    }
}

impl NamedField {
    pub open spec fn view(&self) -> NamedFieldV
        decreases self,
    {
        NamedFieldV { name: self.name@, attrs: self.attrs.view(), ty: self.ty.view() }
    }
}

impl PosField {
    pub open spec fn view(&self) -> PosFieldV
        decreases self,
    {
        PosFieldV { attrs: self.attrs.view(), ty: self.ty.view() }
    }
}

impl VariantDef {
    pub open spec fn view(&self) -> VariantDefV
        decreases self,
    {
        VariantDefV { name: self.name@, attrs: self.attrs.view(), fields: self.fields.view() }
    }
}

impl StructDef {
    pub open spec fn view(&self) -> StructDefV
        decreases self,
    {
        StructDefV { attrs: self.attrs.view(), fields: self.fields.view() }
    }
}

impl EnumDef {
    pub open spec fn view(&self) -> EnumDefV
        decreases self,
    {
        EnumDefV { attrs: self.attrs.view(), variants: view_variants(self.variants@) }
    }
}

impl ContainerAttrs {
    pub open spec fn view(&self) -> ContainerAttrsV
        decreases self,
    {
        ContainerAttrsV {
            rename_all: view_opt_inflections(&self.rename_all),
            rename_all_fields: view_opt_inflections(&self.rename_all_fields),
            tag: view_opt_string(&self.tag),
            content: view_opt_string(&self.content),
            untagged: self.untagged is Some,
            transparent: self.transparent is Some,
            from: match &self.from {
                Option::None => Option::None,
                Option::Some(t) => Option::Some(Box::new(t.view())),
            },
            try_from: match &self.try_from {
                Option::None => Option::None,
                Option::Some(t) => Option::Some(Box::new(t.view())),
            },
            into: match &self.into {
                Option::None => Option::None,
                Option::Some(t) => Option::Some(Box::new(t.view())),
            },
            try_into: match &self.try_into {
                Option::None => Option::None,
                Option::Some(t) => Option::Some(Box::new(t.view())),
            },
            default: self.default is Some,
        }
    }
}

/// Container annotations with nothing set.
pub open spec fn empty_container_attrs() -> ContainerAttrsV {
    ContainerAttrsV {
        rename_all: Option::None,
        rename_all_fields: Option::None,
        tag: Option::None,
        content: Option::None,
        untagged: false,
        transparent: false,
        from: Option::None,
        try_from: Option::None,
        into: Option::None,
        try_into: Option::None,
        default: false,
    }
}

/// Variant annotations with nothing set.
pub open spec fn empty_variant_attrs() -> VariantAttrsV {
    VariantAttrsV {
        rename: Option::None,
        rename_all: Option::None,
        skip: false,
        skip_serializing: false,
        skip_deserializing: false,
        untagged: false,
    }
}

/// Field annotations with nothing set.
pub open spec fn empty_field_attrs() -> FieldAttrsV {
    FieldAttrsV {
        rename: Option::None,
        default: false,
        flatten: false,
        skip: false,
        skip_serializing: false,
        skip_deserializing: false,
        skip_serializing_if: false,
    }
}

impl Default for ContainerAttrs {
    /// Container annotations with nothing set.
    fn default() -> (r: Self)
        ensures
            r.view() == empty_container_attrs(),
    {
        let r = ContainerAttrs {
            rename_all: Option::None,
            rename_all_fields: Option::None,
            tag: Option::None,
            content: Option::None,
            untagged: Option::None,
            transparent: Option::None,
            from: Option::None,
            try_from: Option::None,
            into: Option::None,
            try_into: Option::None,
            default: Option::None,
        };
        proof {
            assert(r.view() =~= empty_container_attrs());
        }
        r
    }
}

impl Default for VariantAttrs {
    /// Variant annotations with nothing set.
    fn default() -> (r: Self)
        ensures
            r.view() == empty_variant_attrs(),
    {
        let r = VariantAttrs {
            rename: Option::None,
            rename_all: Option::None,
            skip: Option::None,
            skip_serializing: Option::None,
            skip_deserializing: Option::None,
            untagged: Option::None,
        };
        proof {
            assert(r.view() =~= empty_variant_attrs());
        }
        r
    }
}

impl Default for FieldAttrs {
    /// Field annotations with nothing set.
    fn default() -> (r: Self)
        ensures
            r.view() == empty_field_attrs(),
    {
        let r = FieldAttrs {
            rename: Option::None,
            default: Option::None,
            flatten: Option::None,
            skip: Option::None,
            skip_serializing: Option::None,
            skip_deserializing: Option::None,
            skip_serializing_if: Option::None,
        };
        proof {
            assert(r.view() =~= empty_field_attrs());
        }
        r
    }
}

impl<T> vstd::std_specs::convert::FromSpecImpl<SerDe<T>> for Complex<T> {
    open spec fn obeys_from_spec() -> bool {
        true
    }

    open spec fn from_spec(value: SerDe<T>) -> Complex<T> {
        Complex::Complex { serialize: value.serialize, deserialize: value.deserialize }
    }
}

impl<T> From<SerDe<T>> for Complex<T> {
    /// An explicit pair is one form of a two-sided value.
    fn from(value: SerDe<T>) -> (r: Complex<T>)
        ensures
            r == (Complex::Complex { serialize: value.serialize, deserialize: value.deserialize }),
    {
        Complex::Complex { serialize: value.serialize, deserialize: value.deserialize }
    }
}

/// Whether a member type is the optional-valued wrapper.
pub fn is_option(ty: &Ty) -> (r: bool)
    ensures
        r == (ty.view() is Optional),
{
    match ty {
        Ty::Optional(_) => true,
        _ => false,
    }
}

} // verus!
