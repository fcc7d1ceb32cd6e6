use vstd::prelude::*;
use crate::descriptor::Inflection;

verus! {

/// What `str::to_lowercase` returns for the given characters.
pub uninterp spec fn lower_of(s: Seq<char>) -> Seq<char>;

/// What `str::to_uppercase` returns for the given characters.
pub uninterp spec fn upper_of(s: Seq<char>) -> Seq<char>;

/// What inflector's `to_pascal_case` returns for the given characters.
pub uninterp spec fn pascal_of(s: Seq<char>) -> Seq<char>;

/// What inflector's `to_camel_case` returns for the given characters.
pub uninterp spec fn camel_of(s: Seq<char>) -> Seq<char>;

/// What inflector's `to_snake_case` returns for the given characters.
pub uninterp spec fn snake_of(s: Seq<char>) -> Seq<char>;

/// What inflector's `to_screaming_snake_case` returns for the given
/// characters.
pub uninterp spec fn screaming_snake_of(s: Seq<char>) -> Seq<char>;

/// What inflector's `to_kebab_case` returns for the given characters.
pub uninterp spec fn kebab_of(s: Seq<char>) -> Seq<char>;

/// Relies on str::to_lowercase: a pure text transform, the result depends
/// on the characters alone.
#[verifier::external_body]
fn to_lower(s: &str) -> (r: String)
    ensures
        r@ == lower_of(s@),
{
    s.to_lowercase()
}

/// Relies on str::to_uppercase: a pure text transform, the result depends
/// on the characters alone.
#[verifier::external_body]
fn to_upper(s: &str) -> (r: String)
    ensures
        r@ == upper_of(s@),
{
    s.to_uppercase()
}

/// Relies on inflector's to_pascal_case: a pure text transform, the result
/// depends on the characters alone.
#[verifier::external_body]
fn to_pascal(s: &str) -> (r: String)
    ensures
        r@ == pascal_of(s@),
{
    inflector::cases::pascalcase::to_pascal_case(s)
}

/// Relies on inflector's to_camel_case: a pure text transform, the result
/// depends on the characters alone.
#[verifier::external_body]
fn to_camel(s: &str) -> (r: String)
    ensures
        r@ == camel_of(s@),
{
    inflector::cases::camelcase::to_camel_case(s)
}

/// Relies on inflector's to_snake_case: a pure text transform, the result
/// depends on the characters alone.
#[verifier::external_body]
fn to_snake(s: &str) -> (r: String)
    ensures
        r@ == snake_of(s@),
{
    inflector::cases::snakecase::to_snake_case(s)
}

/// Relies on inflector's to_screaming_snake_case: a pure text transform,
/// the result depends on the characters alone.
#[verifier::external_body]
fn to_screaming_snake(s: &str) -> (r: String)
    ensures
        r@ == screaming_snake_of(s@),
{
    inflector::cases::screamingsnakecase::to_screaming_snake_case(s)
}

/// Relies on inflector's to_kebab_case: a pure text transform, the result
/// depends on the characters alone.
#[verifier::external_body]
fn to_kebab(s: &str) -> (r: String)
    ensures
        r@ == kebab_of(s@),
{
    inflector::cases::kebabcase::to_kebab_case(s)
}

impl Inflection {
    /// The text transform this convention performs; the screaming-kebab
    /// convention is kebab-case followed by uppercasing.
    pub open spec fn apply_spec(self, s: Seq<char>) -> Seq<char> {
        match self {
            Inflection::Lower => lower_of(s),
            Inflection::Upper => upper_of(s),
            Inflection::Pascal => pascal_of(s),
            Inflection::Camel => camel_of(s),
            Inflection::Snake => snake_of(s),
            Inflection::ScreamingSnake => screaming_snake_of(s),
            Inflection::Kebab => kebab_of(s),
            Inflection::ScreamingKebab => upper_of(kebab_of(s)),
        }
    }

    /// Apply this case convention to an identifier.
    pub fn apply(&self, value: &str) -> (r: String)
        ensures
            r@ == self.apply_spec(value@),
    {
        match self {
            Inflection::Lower => to_lower(value),
            Inflection::Upper => to_upper(value),
            Inflection::Pascal => to_pascal(value),
            Inflection::Camel => to_camel(value),
            Inflection::Snake => to_snake(value),
            Inflection::ScreamingSnake => to_screaming_snake(value),
            Inflection::Kebab => to_kebab(value),
            Inflection::ScreamingKebab => {
                let k = to_kebab(value);
                to_upper(k.as_str())
            },
        }
    }
}

} // verus!
