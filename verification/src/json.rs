//! JSON values as the checks and the generator read and write them.
//!
//! A number is held as text: the text serde_json writes for it when a
//! document is read, so no value here is a floating-point one.

use vstd::prelude::*;
use crate::text::str_eq;

verus! {

/// A JSON value.
#[derive(Debug)]
pub enum Json {
    Null,
    Bool(bool),
    /// A number, as the text serde_json writes for it.
    Number(String),
    String(String),
    Array(Vec<Json>),
    /// An object's members in order. A key occurs at most once.
    Object(Vec<(String, Json)>),
}

} // verus!

verus! {

/// A JSON value as mathematics sees it.
#[verifier::ext_equal]
pub enum JsonV {
    Null,
    Bool(bool),
    Number(Seq<char>),
    Str(Seq<char>),
    Array(Seq<JsonV>),
    Object(Seq<(Seq<char>, JsonV)>),
}

/// What a value holds.
pub open spec fn view_of(j: Json) -> JsonV
    decreases j,
{
    match j {
        Json::Null => JsonV::Null,
        Json::Bool(b) => JsonV::Bool(b),
        Json::Number(n) => JsonV::Number(n@),
        Json::String(s) => JsonV::Str(s@),
        Json::Array(v) => JsonV::Array(Seq::new(v@.len(), |i: int| if 0 <= i < v@.len() { view_of(v@[i]) } else { JsonV::Null })),
        Json::Object(e) => JsonV::Object(Seq::new(e@.len(), |i: int| if 0 <= i < e@.len() { (e@[i].0@, view_of(e@[i].1)) } else { (Seq::empty(), JsonV::Null) })),
    }
}

} // verus!

verus! {

impl View for Json {
    type V = JsonV;

    open spec fn view(&self) -> JsonV {
        view_of(*self)
    }
}

impl Json {
    /// A copy of the value.
    pub fn copy(&self) -> (r: Json)
        ensures
            r@ == self@,
        decreases self,
    {
        match self {
            Json::Null => Json::Null,
            Json::Bool(b) => Json::Bool(*b),
            Json::Number(n) => Json::Number(n.clone()),
            Json::String(s) => Json::String(s.clone()),
            Json::Array(v) => {
                let mut out: Vec<Json> = Vec::new();
                let mut i: usize = 0;
                while i < v.len()
                    invariant
                        i <= v@.len(),
                        *self == Json::Array(*v),
                        out@.len() == i,
                        forall|k: int| 0 <= k < i ==> view_of(#[trigger] out@[k]) == view_of(v@[k]),
                    decreases v@.len() - i,
                {
                    proof {
                        vstd::std_specs::vec::axiom_vec_index_decreases(*v, i as int);
                        assert(decreases_to!(*self => (*self)->Array_0));
                        assert(decreases_to!(*v => v@));
                        assert(decreases_to!(v@ => v@[i as int]));
                        assert(decreases_to!(*self => v@[i as int]));
                    }
                    let e = v[i].copy();
                    out.push(e);
                    i = i + 1;
                }
                let r = Json::Array(out);
                proof {
                    let a = view_of(r)->Array_0;
                    let b = view_of(*self)->Array_0;
                    assert(a.len() == b.len());
                    assert forall|k: int| 0 <= k < a.len() implies a[k] == b[k] by {
                        assert(view_of(out@[k]) == view_of(v@[k]));
                    }
                    assert(a =~= b);
                }
                r
            },
            Json::Object(entries) => {
                let mut out: Vec<(String, Json)> = Vec::new();
                let mut i: usize = 0;
                while i < entries.len()
                    invariant
                        i <= entries@.len(),
                        *self == Json::Object(*entries),
                        out@.len() == i,
                        forall|k: int| 0 <= k < i ==> (#[trigger] out@[k]).0@ == entries@[k].0@ && view_of(out@[k].1) == view_of(entries@[k].1),
                    decreases entries@.len() - i,
                {
                    proof {
                        vstd::std_specs::vec::axiom_vec_index_decreases(*entries, i as int);
                        assert(decreases_to!(*self => (*self)->Object_0));
                        assert(decreases_to!(*entries => entries@));
                        assert(decreases_to!(entries@ => entries@[i as int]));
                        assert(decreases_to!(entries@[i as int] => entries@[i as int].1));
                        assert(decreases_to!(*self => entries@[i as int].1));
                    }
                    let e = entries[i].1.copy();
                    out.push((entries[i].0.clone(), e));
                    i = i + 1;
                }
                let r = Json::Object(out);
                proof {
                    let a = view_of(r)->Object_0;
                    let b = view_of(*self)->Object_0;
                    assert(a.len() == b.len());
                    assert forall|k: int| 0 <= k < a.len() implies a[k] == b[k] by {
                        assert(out@[k].0@ == entries@[k].0@);
                        assert(view_of(out@[k].1) == view_of(entries@[k].1));
                    }
                    assert(a =~= b);
                }
                r
            },
        }
    }
}

} // verus!

verus! {

/// An object's members, each as what it holds.
pub open spec fn entries_view(e: Seq<(String, Json)>) -> Seq<(Seq<char>, JsonV)> {
    e.map_values(|m: (String, Json)| (m.0@, m.1@))
}

/// An array's elements, each as what it holds.
pub open spec fn elements_view(v: Seq<Json>) -> Seq<JsonV> {
    v.map_values(|j: Json| j@)
}

/// An object holds its members' views.
pub proof fn lemma_object_view(e: Vec<(String, Json)>)
    ensures
        Json::Object(e)@ == JsonV::Object(entries_view(e@)),
{
    let a = Json::Object(e)@->Object_0;
    assert(a =~= entries_view(e@));
}

/// An array holds its elements' views.
pub proof fn lemma_array_view(v: Vec<Json>)
    ensures
        Json::Array(v)@ == JsonV::Array(elements_view(v@)),
{
    let a = Json::Array(v)@->Array_0;
    assert(a =~= elements_view(v@));
}

/// An object of the members given.
pub fn object(e: Vec<(String, Json)>) -> (j: Json)
    ensures
        j@ == JsonV::Object(entries_view(e@)),
{
    proof {
        lemma_object_view(e);
    }
    Json::Object(e)
}

/// An array of the elements given.
pub fn array(v: Vec<Json>) -> (j: Json)
    ensures
        j@ == JsonV::Array(elements_view(v@)),
{
    proof {
        lemma_array_view(v);
    }
    Json::Array(v)
}

/// A member named `key`.
pub fn entry(key: &str, value: Json) -> (m: (String, Json))
    ensures
        m.0@ == key@,
        m.1 == value,
{
    (String::from_str(key), value)
}

} // verus!

verus! {

/// The first member of `entries` named `key`.
pub open spec fn jmember(entries: Seq<(Seq<char>, JsonV)>, key: Seq<char>) -> Option<JsonV>
    decreases entries.len(),
{
    if entries.len() == 0 {
        None
    } else if entries[0].0 == key {
        Some(entries[0].1)
    } else {
        jmember(entries.drop_first(), key)
    }
}

/// An object's member named `key`; nothing for anything but an object.
pub open spec fn jfield(j: JsonV, key: Seq<char>) -> Option<JsonV> {
    match j {
        JsonV::Object(entries) => jmember(entries, key),
        _ => None,
    }
}

/// A member of an optional value.
pub open spec fn jget(j: Option<JsonV>, key: Seq<char>) -> Option<JsonV> {
    match j {
        Some(v) => jfield(v, key),
        None => None,
    }
}

/// The value reached by following `keys` through nested objects.
pub open spec fn jpath(j: JsonV, keys: Seq<Seq<char>>) -> Option<JsonV>
    decreases keys.len(),
{
    if keys.len() == 0 {
        Some(j)
    } else {
        match jfield(j, keys[0]) {
            Some(next) => jpath(next, keys.drop_first()),
            None => None,
        }
    }
}

/// The text a value holds, if it is a string.
pub open spec fn jstr(j: Option<JsonV>) -> Option<Seq<char>> {
    match j {
        Some(JsonV::Str(s)) => Some(s),
        _ => None,
    }
}

/// The elements a value holds, if it is an array.
pub open spec fn jarray(j: Option<JsonV>) -> Option<Seq<JsonV>> {
    match j {
        Some(JsonV::Array(v)) => Some(v),
        _ => None,
    }
}

/// The boolean a value holds, if it is one.
pub open spec fn jbool(j: Option<JsonV>) -> Option<bool> {
    match j {
        Some(JsonV::Bool(b)) => Some(b),
        _ => None,
    }
}

/// An optional text, as the string it is or `null`.
pub open spec fn str_or_null(s: Option<Seq<char>>) -> JsonV {
    match s {
        Some(t) => JsonV::Str(t),
        None => JsonV::Null,
    }
}

fn member_in<'a>(entries: &'a Vec<(String, Json)>, key: &str) -> (r: Option<&'a Json>)
    ensures
        r matches Some(v) ==> jmember(entries_view(entries@), key@) == Some(v@),
        r is None ==> jmember(entries_view(entries@), key@) is None,
{
    let mut i: usize = 0;
    assert(entries_view(entries@).skip(0) =~= entries_view(entries@));
    while i < entries.len()
        invariant
            i <= entries@.len(),
            jmember(entries_view(entries@), key@) == jmember(entries_view(entries@).skip(i as int), key@),
        decreases entries@.len() - i,
    {
        assert(entries_view(entries@).skip(i as int).drop_first() =~= entries_view(entries@).skip(i + 1));
        if str_eq(entries[i].0.as_str(), key) {
            return Some(&entries[i].1);
        }
        i = i + 1;
    }
    None
}

impl Json {
    /// An object's member named `key`.
    pub fn get(&self, key: &str) -> (r: Option<&Json>)
        ensures
            r matches Some(v) ==> jfield(self@, key@) == Some(v@),
            r is None ==> jfield(self@, key@) is None,
    {
        match self {
            Json::Object(entries) => {
                proof {
                    lemma_object_view(*entries);
                }
                member_in(entries, key)
            },
            _ => None,
        }
    }

    /// The value reached by following `keys` through nested objects.
    pub fn lookup(&self, keys: &[&str]) -> (r: Option<&Json>)
        ensures
            r matches Some(v) ==> jpath(self@, keys@.map_values(|k: &str| k@)) == Some(v@),
            r is None ==> jpath(self@, keys@.map_values(|k: &str| k@)) is None,
    {
        let mut cur: &Json = self;
        let mut i: usize = 0;
        assert(keys@.map_values(|k: &str| k@).skip(0) =~= keys@.map_values(|k: &str| k@));
        while i < keys.len()
            invariant
                i <= keys@.len(),
                jpath(self@, keys@.map_values(|k: &str| k@)) == jpath(
                    cur@,
                    keys@.map_values(|k: &str| k@).skip(i as int),
                ),
            decreases keys@.len() - i,
        {
            let ghost ks = keys@.map_values(|k: &str| k@);
            assert(ks.skip(i as int).drop_first() =~= ks.skip(i + 1));
            assert(ks.skip(i as int)[0] == keys@[i as int]@);
            match cur.get(keys[i]) {
                Some(next) => {
                    cur = next;
                },
                None => {
                    return None;
                },
            }
            i = i + 1;
        }
        assert(keys@.map_values(|k: &str| k@).skip(i as int) =~= Seq::<Seq<char>>::empty());
        Some(cur)
    }

    /// The text a string holds.
    pub fn as_str(&self) -> (r: Option<&str>)
        ensures
            r matches Some(s) ==> jstr(Some(self@)) == Some(s@),
            r is None ==> jstr(Some(self@)) is None,
    {
        match self {
            Json::String(s) => Some(s.as_str()),
            _ => None,
        }
    }

    /// The elements an array holds.
    pub fn as_array(&self) -> (r: Option<&Vec<Json>>)
        ensures
            r matches Some(v) ==> jarray(Some(self@)) == Some(elements_view(v@)),
            r is None ==> jarray(Some(self@)) is None,
    {
        match self {
            Json::Array(v) => {
                proof {
                    lemma_array_view(*v);
                }
                Some(v)
            },
            _ => None,
        }
    }

    /// The boolean a value holds.
    pub fn as_bool(&self) -> (r: Option<bool>)
        ensures
            r == jbool(Some(self@)),
    {
        match self {
            Json::Bool(b) => Some(*b),
            _ => None,
        }
    }

    /// Whether the value is `null`.
    pub fn is_null(&self) -> (r: bool)
        ensures
            r == (self@ == JsonV::Null),
    {
        match self {
            Json::Null => true,
            _ => false,
        }
    }
}

/// A string value.
pub fn text(s: &str) -> (j: Json)
    ensures
        j@ == JsonV::Str(s@),
{
    Json::String(String::from_str(s))
}

/// An optional text, as a string or `null`.
pub fn text_or_null(s: &Option<String>) -> (j: Json)
    ensures
        j@ == str_or_null(match s { Some(t) => Some(t@), None => None }),
{
    match s {
        Some(t) => Json::String(t.clone()),
        None => Json::Null,
    }
}

} // verus!

verus! {

#[verifier::external_type_specification]
#[verifier::external_body]
pub struct ExValue(serde_json::Value);

/// A `serde_json` value holding the same JSON, one for one.
#[verifier::external_body]
fn to_value(j: &Json) -> serde_json::Value {
    match j {
        Json::Null => serde_json::Value::Null,
        Json::Bool(b) => serde_json::Value::Bool(*b),
        Json::Number(n) => n.parse::<serde_json::Number>().map_or(serde_json::Value::Null, serde_json::Value::Number),
        Json::String(s) => serde_json::Value::String(s.clone()),
        Json::Array(v) => serde_json::Value::Array(v.iter().map(to_value).collect()),
        Json::Object(e) => serde_json::Value::Object(e.iter().map(|(k, v)| (k.clone(), to_value(v))).collect()),
    }
}

/// The library's JSON holding what a `serde_json` value holds, one for one.
#[verifier::external_body]
fn from_value(v: &serde_json::Value) -> Json {
    match v {
        serde_json::Value::Null => Json::Null,
        serde_json::Value::Bool(b) => Json::Bool(*b),
        serde_json::Value::Number(n) => Json::Number(n.to_string()),
        serde_json::Value::String(s) => Json::String(s.clone()),
        serde_json::Value::Array(a) => Json::Array(a.iter().map(from_value).collect()),
        serde_json::Value::Object(m) => Json::Object(m.iter().map(|(k, v)| (k.clone(), from_value(v))).collect()),
    }
}

/// What `serde_json` reads from a JSON text, if it reads one.
pub uninterp spec fn parsed(text: Seq<char>) -> Option<JsonV>;

/// What `serde_json` says of a text it cannot read.
pub uninterp spec fn parse_error(text: Seq<char>) -> Seq<char>;

/// `serde_json::from_str::<Value>`: the value the text holds, or what the
/// parser says where it is not JSON.
#[verifier::external_body]
pub(crate) fn parse(text: &str) -> (r: Result<Json, String>)
    ensures
        match r {
            Ok(j) => parsed(text@) == Some(j@),
            Err(e) => parsed(text@) is None && e@ == parse_error(text@),
        },
{
    match serde_json::from_str::<serde_json::Value>(text) {
        Ok(v) => Ok(from_value(&v)),
        Err(e) => Err(e.to_string()),
    }
}

/// How `serde_json` writes a value: compact, an object's members in key
/// order.
pub uninterp spec fn written(j: JsonV) -> Seq<char>;

/// `<serde_json::Value as Display>::fmt`: the value written as compact JSON.
#[verifier::external_body]
pub(crate) fn written_text(j: &Json) -> (r: String)
    ensures
        r@ == written(j@),
{
    to_value(j).to_string()
}

} // verus!
