use vstd::prelude::*;
use crate::num::{Decimal, DecimalV};

verus! {

/// An already-decoded dynamic value, as a self-describing format hands it
/// back: null, booleans, numbers, strings, sequences, and string-keyed
/// mappings whose entry order is irrelevant to the checker.
#[derive(Debug, PartialEq)]
pub enum JsonValue {
    Null,
    Bool(bool),
    Number(Decimal),
    String(String),
    Array(Vec<JsonValue>),
    Object(Vec<(String, JsonValue)>),
}

/// Mathematical model of a [`JsonValue`].
#[verifier::ext_equal]
pub enum JsonV {
    Null,
    Bool(bool),
    Number(DecimalV),
    String(Seq<char>),
    Array(Seq<JsonV>),
    Object(Seq<(Seq<char>, JsonV)>),
}

/// The models of a sequence of values, elementwise.
pub open spec fn view_jsons(s: Seq<JsonValue>) -> Seq<JsonV>
    decreases s,
{
    if s.len() == 0 {
        Seq::empty()
    } else {
        seq![s.first().view()] + view_jsons(s.drop_first())
    }
}

/// The models of a mapping's entries, elementwise.
pub open spec fn view_members(s: Seq<(String, JsonValue)>) -> Seq<(Seq<char>, JsonV)>
    decreases s,
{
    if s.len() == 0 {
        Seq::empty()
    } else {
        seq![(s.first().0@, s.first().1.view())] + view_members(s.drop_first())
    }
}

pub broadcast proof fn lemma_view_jsons(s: Seq<JsonValue>)
    ensures
        (#[trigger] view_jsons(s)).len() == s.len(),
        forall|i: int| 0 <= i < s.len() ==> #[trigger] view_jsons(s)[i] == s[i].view(),
    decreases s.len(),
{
    if s.len() > 0 {
        lemma_view_jsons(s.drop_first());
        assert forall|i: int| 0 <= i < s.len() implies #[trigger] view_jsons(s)[i]
            == s[i].view() by {
            if i == 0 {
                assert(view_jsons(s)[0] == s.first().view());
            } else {
                assert(view_jsons(s)[i] == view_jsons(s.drop_first())[i - 1]);
                assert(s.drop_first()[i - 1] == s[i]);
            }
        }
    }
}

pub broadcast proof fn lemma_view_members(s: Seq<(String, JsonValue)>)
    ensures
        (#[trigger] view_members(s)).len() == s.len(),
        forall|i: int| 0 <= i < s.len() ==> #[trigger] view_members(s)[i]
            == (s[i].0@, s[i].1.view()),
    decreases s.len(),
{
    if s.len() > 0 {
        lemma_view_members(s.drop_first());
        assert forall|i: int| 0 <= i < s.len() implies #[trigger] view_members(s)[i]
            == (s[i].0@, s[i].1.view()) by {
            if i == 0 {
                assert(view_members(s)[0] == (s.first().0@, s.first().1.view()));
            } else {
                assert(view_members(s)[i] == view_members(s.drop_first())[i - 1]);
                assert(s.drop_first()[i - 1] == s[i]);
            }
        }
    }
}

impl JsonValue {
    pub open spec fn view(&self) -> JsonV
        decreases self,
    {
        match self {
            JsonValue::Null => JsonV::Null,
            JsonValue::Bool(b) => JsonV::Bool(*b),
            JsonValue::Number(d) => JsonV::Number(d.view()),
            JsonValue::String(s) => JsonV::String(s@),
            JsonValue::Array(vs) => JsonV::Array(view_jsons(vs@)),
            JsonValue::Object(ms) => JsonV::Object(view_members(ms@)),
        }
    }
}

/// The value under the first entry with the given key, if any.
pub open spec fn member_get(ms: Seq<(Seq<char>, JsonV)>, key: Seq<char>) -> Option<JsonV>
    decreases ms,
{
    if ms.len() == 0 {
        Option::None
    } else if ms.first().0 == key {
        Option::Some(ms.first().1)
    } else {
        member_get(ms.drop_first(), key)
    }
}

} // verus!
