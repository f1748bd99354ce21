//! The JSON values that the converters read and build, with their
//! mathematical model.
//!
//! `Json` mirrors the six kinds of a JSON value. Object members keep the order
//! in which they were written; a lookup by key finds the first member with
//! that key. Numbers keep the three forms a JSON reader distinguishes:
//! non-negative integers, negative integers, and other numbers, which are kept
//! as their decimal text.

use vstd::prelude::*;
use crate::text::str_eq;

verus! {

/// The model of a JSON number.
pub enum NumberV {
    PosInt(u64),
    NegInt(i64),
    Float(Seq<char>),
}

/// The model of a JSON value: strings are sequences of characters, arrays are
/// sequences of values, and objects are sequences of (key, value) members.
pub enum JsonV {
    Null,
    Bool(bool),
    Number(NumberV),
    Str(Seq<char>),
    Array(Seq<JsonV>),
    Object(Seq<(Seq<char>, JsonV)>),
}

/// A JSON number.
#[derive(Debug, PartialEq)]
pub enum JsonNumber {
    /// A non-negative integer.
    PosInt(u64),
    /// A negative integer.
    NegInt(i64),
    /// Any other number, as its decimal text (for example `0.7` or `1e100`).
    Float(String),
}

/// A JSON value.
#[derive(Debug, PartialEq)]
pub enum Json {
    Null,
    Bool(bool),
    Number(JsonNumber),
    String(String),
    Array(Vec<Json>),
    Object(Vec<(String, Json)>),
}

impl JsonNumber {
    pub open spec fn model(self) -> NumberV {
        match self {
            JsonNumber::PosInt(n) => NumberV::PosInt(n),
            JsonNumber::NegInt(n) => NumberV::NegInt(n),
            JsonNumber::Float(t) => NumberV::Float(t@),
        }
    }

    /// A copy of this number.
    pub fn duplicate(&self) -> (r: JsonNumber)
        ensures
            r.model() == self.model(),
    {
        match self {
            JsonNumber::PosInt(n) => JsonNumber::PosInt(*n),
            JsonNumber::NegInt(n) => JsonNumber::NegInt(*n),
            JsonNumber::Float(t) => JsonNumber::Float(t.clone()),
        }
    }
}

impl Json {
    pub open spec fn model(self) -> JsonV
        decreases self,
    {
        match self {
            Json::Null => JsonV::Null,
            Json::Bool(b) => JsonV::Bool(b),
            Json::Number(n) => JsonV::Number(n.model()),
            Json::String(s) => JsonV::Str(s@),
            Json::Array(items) => JsonV::Array(models(items@)),
            Json::Object(fields) => JsonV::Object(field_models(fields@)),
        }
    }
}

impl View for Json {
    type V = JsonV;

    open spec fn view(&self) -> JsonV {
        self.model()
    }
}

/// The models of a sequence of values, in order.
pub open spec fn models(s: Seq<Json>) -> Seq<JsonV>
    decreases s,
{
    if s.len() == 0 {
        Seq::empty()
    } else {
        models(s.drop_last()).push(s.last().model())
    }
}

/// The models of a sequence of object members, in order.
pub open spec fn field_models(s: Seq<(String, Json)>) -> Seq<(Seq<char>, JsonV)>
    decreases s,
{
    if s.len() == 0 {
        Seq::empty()
    } else {
        field_models(s.drop_last()).push((s.last().0@, s.last().1.model()))
    }
}

/// The value of the first member whose key is `key`.
pub open spec fn lookup(fields: Seq<(Seq<char>, JsonV)>, key: Seq<char>) -> Option<JsonV>
    decreases fields.len(),
{
    if fields.len() == 0 {
        None
    } else if fields[0].0 == key {
        Some(fields[0].1)
    } else {
        lookup(fields.drop_first(), key)
    }
}

impl JsonV {
    /// The member `key` of an object; nothing for any other value.
    pub open spec fn get(self, key: Seq<char>) -> Option<JsonV> {
        match self {
            JsonV::Object(fields) => lookup(fields, key),
            _ => None,
        }
    }

    /// The member `key` of an object, or `null` where there is none.
    pub open spec fn at(self, key: Seq<char>) -> JsonV {
        match self.get(key) {
            Some(v) => v,
            None => JsonV::Null,
        }
    }

    pub open spec fn as_str(self) -> Option<Seq<char>> {
        match self {
            JsonV::Str(s) => Some(s),
            _ => None,
        }
    }

    /// The string this value holds, or `default` where it holds none.
    pub open spec fn str_or(self, default: Seq<char>) -> Seq<char> {
        match self {
            JsonV::Str(s) => s,
            _ => default,
        }
    }

    pub open spec fn as_array(self) -> Option<Seq<JsonV>> {
        match self {
            JsonV::Array(items) => Some(items),
            _ => None,
        }
    }

    pub open spec fn as_bool(self) -> Option<bool> {
        match self {
            JsonV::Bool(b) => Some(b),
            _ => None,
        }
    }

    /// The value as an unsigned 64-bit integer, where it is one.
    pub open spec fn as_u64(self) -> Option<u64> {
        match self {
            JsonV::Number(NumberV::PosInt(n)) => Some(n),
            _ => None,
        }
    }
}

/// The model of each element of a sequence is the element's own model.
pub proof fn lemma_models(s: Seq<Json>)
    ensures
        models(s).len() == s.len(),
        forall|i: int| 0 <= i < s.len() ==> #[trigger] models(s)[i] == s[i].model(),
    decreases s.len(),
{
    if s.len() > 0 {
        lemma_models(s.drop_last());
    }
}

/// The model of each member of a sequence is built from the member's key and value.
pub proof fn lemma_field_models(s: Seq<(String, Json)>)
    ensures
        field_models(s).len() == s.len(),
        forall|i: int|
            0 <= i < s.len() ==> #[trigger] field_models(s)[i] == (s[i].0@, s[i].1.model()),
    decreases s.len(),
{
    if s.len() > 0 {
        lemma_field_models(s.drop_last());
    }
}

/// A lookup that skips members with other keys.
proof fn lemma_lookup_skip(fields: Seq<(Seq<char>, JsonV)>, key: Seq<char>, i: int)
    requires
        0 <= i < fields.len(),
        fields[i].0 != key,
    ensures
        lookup(fields.subrange(i, fields.len() as int), key) == lookup(
            fields.subrange(i + 1, fields.len() as int),
            key,
        ),
{
    assert(fields.subrange(i, fields.len() as int).drop_first() =~= fields.subrange(
        i + 1,
        fields.len() as int,
    ));
}

/// An empty array under construction.
pub fn new_items() -> (items: Vec<Json>)
    ensures
        items@.len() == 0,
        models(items@) == Seq::<JsonV>::empty(),
{
    Vec::new()
}

/// An empty object under construction.
pub fn new_fields() -> (fields: Vec<(String, Json)>)
    ensures
        fields@.len() == 0,
        field_models(fields@) == Seq::<(Seq<char>, JsonV)>::empty(),
{
    Vec::new()
}

/// Appends a value to an array under construction.
pub fn push_item(items: &mut Vec<Json>, x: Json)
    ensures
        models(final(items)@) == models(old(items)@).push(x@),
{
    let ghost before = items@;
    items.push(x);
    assert(items@.drop_last() =~= before);
}

/// Appends a member to an object under construction.
pub fn push_field(fields: &mut Vec<(String, Json)>, key: &str, x: Json)
    ensures
        field_models(final(fields)@) == field_models(old(fields)@).push((key@, x@)),
{
    let ghost before = fields@;
    let k = key.to_owned();
    fields.push((k, x));
    assert(fields@.drop_last() =~= before);
}

impl Json {
    /// A string value holding a copy of `s`.
    pub fn from_str_slice(s: &str) -> (r: Json)
        ensures
            r@ == JsonV::Str(s@),
    {
        Json::String(s.to_owned())
    }

    /// The member `key` of an object (the first one with that key), or `None`
    /// where this is no object or has no such member.
    pub fn get(&self, key: &str) -> (r: Option<&Json>)
        ensures
            match r {
                Some(x) => self@.get(key@) == Some(x@),
                None => self@.get(key@) is None,
            },
    {
        match self {
            Json::Object(fields) => {
                let ghost m = field_models(fields@);
                proof {
                    lemma_field_models(fields@);
                    assert(m.subrange(0, m.len() as int) =~= m);
                }
                let n = fields.len();
                let mut i: usize = 0;
                while i < n
                    invariant
                        n == fields@.len(),
                        m == field_models(fields@),
                        self@ == JsonV::Object(m),
                        m.len() == n,
                        forall|j: int|
                            0 <= j < n ==> #[trigger] m[j] == (fields@[j].0@, fields@[j].1.model()),
                        i <= n,
                        lookup(m, key@) == lookup(m.subrange(i as int, n as int), key@),
                    decreases n - i,
                {
                    let ghost rest = m.subrange(i as int, n as int);
                    assert(rest[0] == m[i as int]);
                    if str_eq(fields[i].0.as_str(), key) {
                        assert(lookup(rest, key@) == Some(rest[0].1));
                        return Some(&fields[i].1);
                    }
                    proof {
                        lemma_lookup_skip(m, key@, i as int);
                    }
                    i = i + 1;
                }
                None
            },
            _ => None,
        }
    }

    /// The member `key` of an object, or `null_value` (a `null`) where there
    /// is none.
    pub(crate) fn at<'a>(&'a self, key: &str, null_value: &'a Json) -> (r: &'a Json)
        requires
            null_value@ == JsonV::Null,
        ensures
            r@ == self@.at(key@),
    {
        match self.get(key) {
            Some(x) => x,
            None => null_value,
        }
    }

    /// The string this value holds, or `default` where it holds none.
    pub(crate) fn str_or<'a>(&'a self, default: &'a str) -> (r: &'a str)
        ensures
            r@ == self@.str_or(default@),
    {
        match self {
            Json::String(s) => s.as_str(),
            _ => default,
        }
    }

    /// The string this value holds, if it is a string.
    pub fn as_str(&self) -> (r: Option<&str>)
        ensures
            match r {
                Some(s) => self@.as_str() == Some(s@),
                None => self@.as_str() is None,
            },
    {
        match self {
            Json::String(s) => Some(s.as_str()),
            _ => None,
        }
    }

    /// The elements of this value, if it is an array.
    pub fn as_array(&self) -> (r: Option<&Vec<Json>>)
        ensures
            match r {
                Some(items) => self@.as_array() == Some(models(items@)),
                None => self@.as_array() is None,
            },
    {
        match self {
            Json::Array(items) => Some(items),
            _ => None,
        }
    }

    /// The boolean this value holds, if it is one.
    pub fn as_bool(&self) -> (r: Option<bool>)
        ensures
            r == self@.as_bool(),
    {
        match self {
            Json::Bool(b) => Some(*b),
            _ => None,
        }
    }

    /// The value as an unsigned 64-bit integer, if it is one.
    pub fn as_u64(&self) -> (r: Option<u64>)
        ensures
            r == self@.as_u64(),
    {
        match self {
            Json::Number(JsonNumber::PosInt(n)) => Some(*n),
            _ => None,
        }
    }

    /// A copy of this value.
    pub fn duplicate(&self) -> (r: Json)
        ensures
            r@ == self@,
        decreases self,
    {
        match self {
            Json::Null => Json::Null,
            Json::Bool(b) => Json::Bool(*b),
            Json::Number(n) => Json::Number(n.duplicate()),
            Json::String(s) => Json::String(s.clone()),
            Json::Array(items) => {
                let mut out: Vec<Json> = Vec::new();
                let n = items.len();
                let mut i: usize = 0;
                while i < n
                    invariant
                        n == items@.len(),
                        *self == Json::Array(*items),
                        i <= n,
                        models(out@) == models(items@.take(i as int)),
                    decreases n - i,
                {
                    proof {
                        assert(decreases_to!(*self => self->Array_0));
                        assert(decreases_to!(*items => items@));
                        assert(decreases_to!(items@ => items@[i as int]));
                    }
                    let c = items[i].duplicate();
                    push_item(&mut out, c);
                    assert(items@.take(i + 1).drop_last() =~= items@.take(i as int));
                    i = i + 1;
                }
                assert(items@.take(n as int) =~= items@);
                Json::Array(out)
            },
            Json::Object(fields) => {
                let mut out: Vec<(String, Json)> = Vec::new();
                let n = fields.len();
                let mut i: usize = 0;
                while i < n
                    invariant
                        n == fields@.len(),
                        *self == Json::Object(*fields),
                        i <= n,
                        field_models(out@) == field_models(fields@.take(i as int)),
                    decreases n - i,
                {
                    proof {
                        assert(decreases_to!(*self => self->Object_0));
                        assert(decreases_to!(*fields => fields@));
                        assert(decreases_to!(fields@ => fields@[i as int]));
                        assert(decreases_to!(fields@[i as int] => fields@[i as int].1));
                    }
                    let c = fields[i].1.duplicate();
                    push_field(&mut out, fields[i].0.as_str(), c);
                    assert(fields@.take(i + 1).drop_last() =~= fields@.take(i as int));
                    i = i + 1;
                }
                assert(fields@.take(n as int) =~= fields@);
                Json::Object(out)
            },
        }
    }
}

} // verus!
