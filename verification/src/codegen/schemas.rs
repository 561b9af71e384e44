//! The rewrites the generator applies to the document's schemas before the
//! wire types are emitted from them, and what it reads of the document
//! around them: its version, its digest, its schema names.
//!
//! A field the document describes as a timestamp becomes `jiff::Timestamp`,
//! and a field naming a credential secret becomes `Redacted<String>`. Both
//! work by pointing the property at a synthetic schema, which keeps the
//! property's own description.

use vstd::prelude::*;
use crate::codegen::envelope::texts_view;
use crate::codegen::operation::{jobject, text_result};
use crate::json::{
    entries_view, jarray, jfield, jmember, jpath, jstr, parse, parsed, Json, JsonV,
};
use crate::relay::order::{lex_less, lex_lt};
use crate::text::{push_char, push_str, str_eq};

verus! {

/// The synthetic schema a timestamp property points at.
pub open spec fn timestamp_name() -> Seq<char> {
    "CanopyTimestamp"@
}

/// The synthetic schema a secret property points at.
pub open spec fn secret_name() -> Seq<char> {
    "CanopySecret"@
}

/// Where a member of the key is, or would go to keep the keys in order.
pub open spec fn insert_at(entries: Seq<(Seq<char>, JsonV)>, key: Seq<char>) -> int
    decreases entries.len(),
{
    if entries.len() == 0 {
        0
    } else if lex_lt(key, entries[0].0) {
        0
    } else {
        insert_at(entries.drop_first(), key) + 1
    }
}

/// Where the first member of the key is, if any.
pub open spec fn member_at(entries: Seq<(Seq<char>, JsonV)>, key: Seq<char>) -> Option<int>
    decreases entries.len(),
{
    if entries.len() == 0 {
        None
    } else if entries[0].0 == key {
        Some(0)
    } else {
        match member_at(entries.drop_first(), key) {
            Some(k) => Some(k + 1),
            None => None,
        }
    }
}

/// An object's members after setting `key` to `value`, as a JSON map does:
/// the member of that key takes the value, or a member is added where the
/// keys stay in order.
pub open spec fn with_member(entries: Seq<(Seq<char>, JsonV)>, key: Seq<char>, value: JsonV) -> Seq<(Seq<char>, JsonV)> {
    match member_at(entries, key) {
        Some(k) => entries.update(k, (key, value)),
        None => entries.insert(insert_at(entries, key), (key, value)),
    }
}

/// Where the first member of the key is.
fn member_index(entries: &Vec<(String, Json)>, key: &str) -> (r: Option<usize>)
    ensures
        match r {
            Some(k) => k < entries@.len() && member_at(entries_view(entries@), key@) == Some(k as int),
            None => member_at(entries_view(entries@), key@) is None,
        },
{
    let ghost ev = entries_view(entries@);
    let mut i: usize = 0;
    assert(ev.skip(0) =~= ev);
    while i < entries.len()
        invariant
            i <= entries@.len(),
            ev == entries_view(entries@),
            member_at(ev, key@) == match member_at(ev.skip(i as int), key@) {
                Some(k) => Some(k + i),
                None => None,
            },
        decreases entries@.len() - i,
    {
        assert(ev.skip(i as int).drop_first() =~= ev.skip(i + 1));
        assert(ev.skip(i as int)[0] == (entries@[i as int].0@, entries@[i as int].1@));
        if str_eq(entries[i].0.as_str(), key) {
            return Some(i);
        }
        i = i + 1;
    }
    assert(ev.skip(i as int) =~= Seq::<(Seq<char>, JsonV)>::empty());
    None
}

/// Set a member as a JSON map does.
fn set_member(entries: &mut Vec<(String, Json)>, key: &str, value: Json)
    ensures
        entries_view(final(entries)@) == with_member(entries_view(old(entries)@), key@, value@),
{
    let ghost ev = entries_view(entries@);
    let ghost vv = value@;
    match member_index(entries, key) {
        Some(k) => {
            entries.set(k, (String::from_str(key), value));
            assert(entries_view(entries@) =~= ev.update(k as int, (key@, vv)));
        },
        None => {
            let mut i: usize = 0;
            assert(ev.skip(0) =~= ev);
            while i < entries.len() && !lex_less(key, entries[i].0.as_str())
                invariant
                    i <= entries@.len(),
                    ev == entries_view(entries@),
                    insert_at(ev, key@) == insert_at(ev.skip(i as int), key@) + i,
                decreases entries@.len() - i,
            {
                assert(ev.skip(i as int).drop_first() =~= ev.skip(i + 1));
                assert(ev.skip(i as int)[0].0 == entries@[i as int].0@);
                i = i + 1;
            }
            proof {
                if i < entries@.len() {
                    assert(ev.skip(i as int)[0].0 == entries@[i as int].0@);
                } else {
                    assert(ev.skip(i as int) =~= Seq::<(Seq<char>, JsonV)>::empty());
                }
            }
            entries.insert(i, (String::from_str(key), value));
            assert(entries_view(entries@) =~= ev.insert(i as int, (key@, vv)));
        },
    }
}

/// Copies of an object's members.
fn copy_entries(entries: &Vec<(String, Json)>) -> (r: Vec<(String, Json)>)
    ensures
        entries_view(r@) == entries_view(entries@),
        r@.len() == entries@.len(),
{
    let mut out: Vec<(String, Json)> = Vec::new();
    let mut i: usize = 0;
    while i < entries.len()
        invariant
            i <= entries@.len(),
            out@.len() == i,
            forall|k: int| 0 <= k < i ==> (#[trigger] out@[k]).0@ == entries@[k].0@ && out@[k].1@ == entries@[k].1@,
        decreases entries@.len() - i,
    {
        out.push((entries[i].0.clone(), entries[i].1.copy()));
        i = i + 1;
    }
    assert(entries_view(out@) =~= entries_view(entries@));
    out
}

/// A reference to one of the definitions.
pub open spec fn reference_to(name: Seq<char>) -> JsonV {
    JsonV::Object(seq![("$ref"@, JsonV::Str("#/definitions/"@ + name))])
}

/// A reference to one of the definitions.
fn reference(name: &str) -> (r: Json)
    ensures
        r@ == reference_to(name@),
{
    let mut target = String::from_str("#/definitions/");
    push_str(&mut target, name);
    let mut e: Vec<(String, Json)> = Vec::new();
    e.push((String::from_str("$ref"), Json::String(target)));
    assert(entries_view(e@) =~= seq![("$ref"@, JsonV::Str("#/definitions/"@ + name@))]);
    crate::json::object(e)
}

/// Whether a member is a free-form object: an object with no properties of
/// its own and no reference.
pub open spec fn free_form(m: JsonV) -> bool {
    jstr(jfield(m, "type"@)) == Some("object"@) && jfield(m, "properties"@) is None && jfield(m, "$ref"@) is None
}

/// The schema an `allOf` of a free-form object beside one typed object folds
/// into: the typed object, carrying arbitrary further keys and whichever
/// description carries the prose; nothing for any other schema.
pub open spec fn folded(schema: JsonV) -> Option<JsonV> {
    match jarray(jfield(schema, "allOf"@)) {
        None => None,
        Some(members) => {
            let open = members.filter(|m: JsonV| free_form(m));
            let typed = members.filter(|m: JsonV| !free_form(m));
            if open.len() == 0 || typed.len() != 1 {
                None
            } else {
                let base = match typed[0] {
                    JsonV::Object(e) => e,
                    _ => Seq::empty(),
                };
                let with_more = with_member(base, "additionalProperties"@, JsonV::Bool(true));
                let description = match jfield(schema, "description"@) {
                    Some(d) => Some(d),
                    None => jfield(open[0], "description"@),
                };
                Some(
                    JsonV::Object(
                        match description {
                            Some(d) => with_member(with_more, "description"@, d),
                            None => with_more,
                        },
                    ),
                )
            }
        },
    }
}

/// Whether a member is a free-form object.
fn is_free_form(m: &Json) -> (r: bool)
    ensures
        r == free_form(m@),
{
    let kind = match m.get("type") {
        Some(t) => t.as_str(),
        None => None,
    };
    let object = match kind {
        Some(k) => str_eq(k, "object"),
        None => false,
    };
    object && m.get("properties").is_none() && m.get("$ref").is_none()
}

/// The schema an `allOf` folds into, if it folds.
fn fold_schema(schema: &Json) -> (r: Option<Json>)
    ensures
        match r {
            Some(j) => folded(schema@) == Some(j@),
            None => folded(schema@) is None,
        },
{
    let members = match schema.get("allOf") {
        Some(a) => match a.as_array() {
            Some(v) => v,
            None => {
                return None;
            },
        },
        None => {
            return None;
        },
    };
    let ghost mv = crate::json::elements_view(members@);
    let mut open: Vec<&Json> = Vec::new();
    let mut typed: Vec<&Json> = Vec::new();
    let mut i: usize = 0;
    proof {
        reveal(Seq::filter);
    }
    assert(mv.take(0) =~= Seq::<JsonV>::empty());
    assert(open@.map_values(|j: &Json| j@) =~= Seq::<JsonV>::empty());
    assert(typed@.map_values(|j: &Json| j@) =~= Seq::<JsonV>::empty());
    while i < members.len()
        invariant
            i <= members@.len(),
            mv == crate::json::elements_view(members@),
            open@.map_values(|j: &Json| j@) == mv.take(i as int).filter(|m: JsonV| free_form(m)),
            typed@.map_values(|j: &Json| j@) == mv.take(i as int).filter(|m: JsonV| !free_form(m)),
        decreases members@.len() - i,
    {
        proof {
            reveal(Seq::filter);
            assert(mv.take(i + 1).drop_last() =~= mv.take(i as int));
            assert(mv.take(i + 1).last() == members@[i as int]@);
        }
        let m = &members[i];
        if is_free_form(m) {
            let ghost was = open@.map_values(|j: &Json| j@);
            open.push(m);
            assert(open@.map_values(|j: &Json| j@) =~= was.push(m@));
        } else {
            let ghost was = typed@.map_values(|j: &Json| j@);
            typed.push(m);
            assert(typed@.map_values(|j: &Json| j@) =~= was.push(m@));
        }
        i = i + 1;
    }
    assert(mv.take(members@.len() as int) =~= mv);
    if open.len() == 0 || typed.len() != 1 {
        return None;
    }
    assert(open@.map_values(|j: &Json| j@)[0] == open@[0]@);
    assert(typed@.map_values(|j: &Json| j@)[0] == typed@[0]@);
    let ghost open_v = mv.filter(|m: JsonV| free_form(m));
    let ghost typed_v = mv.filter(|m: JsonV| !free_form(m));
    assert(jarray(jfield(schema@, "allOf"@)) == Some(mv));
    assert(open_v[0] == open@[0]@);
    assert(typed_v[0] == typed@[0]@);
    let ghost base = match typed_v[0] {
        JsonV::Object(e) => e,
        _ => Seq::<(Seq<char>, JsonV)>::empty(),
    };
    let mut object: Vec<(String, Json)> = match typed[0] {
        Json::Object(e) => {
            proof {
                crate::json::lemma_object_view(*e);
            }
            copy_entries(e)
        },
        _ => Vec::new(),
    };
    assert(entries_view(object@) == base);
    set_member(&mut object, "additionalProperties", Json::Bool(true));
    // Keep whichever description carries the prose: the outer one if the
    // schema has its own, else the free-form member's.
    let description = match schema.get("description") {
        Some(d) => Some(d),
        None => open[0].get("description"),
    };
    match description {
        Some(d) => set_member(&mut object, "description", d.copy()),
        None => {},
    }
    Some(crate::json::object(object))
}

/// The names of the schemas that fold, in order, and the schemas after
/// folding them.
pub open spec fn folding(schemas: Seq<(Seq<char>, JsonV)>) -> (Seq<(Seq<char>, JsonV)>, Seq<Seq<char>>)
    decreases schemas.len(),
{
    if schemas.len() == 0 {
        (Seq::empty(), Seq::empty())
    } else {
        let (done, names) = folding(schemas.drop_last());
        let (name, schema) = schemas.last();
        match folded(schema) {
            Some(f) => (done.push((name, f)), names.push(name)),
            None => (done.push((name, schema)), names),
        }
    }
}

/// Rewrite an `allOf` of a free-form object beside a typed object into the
/// typed object carrying arbitrary further keys, returning the names of the
/// schemas folded.
///
/// Left as it is, the free-form member cannot be typed, so the whole schema
/// would degrade to untyped JSON; folded into `additionalProperties` it emits
/// the declared fields plus a map holding the rest.
pub fn open_objects_to_additional_properties(schemas: &mut Vec<(String, Json)>) -> (r: Vec<String>)
    ensures
        entries_view(final(schemas)@) == folding(entries_view(old(schemas)@)).0,
        texts_view(r@) == folding(entries_view(old(schemas)@)).1,
{
    let ghost sv = entries_view(schemas@);
    let mut out: Vec<(String, Json)> = Vec::new();
    let mut names: Vec<String> = Vec::new();
    let mut i: usize = 0;
    assert(sv.take(0) =~= Seq::<(Seq<char>, JsonV)>::empty());
    assert(entries_view(out@) =~= Seq::<(Seq<char>, JsonV)>::empty());
    assert(texts_view(names@) =~= Seq::<Seq<char>>::empty());
    while i < schemas.len()
        invariant
            i <= schemas@.len(),
            sv == entries_view(schemas@),
            entries_view(out@) == folding(sv.take(i as int)).0,
            texts_view(names@) == folding(sv.take(i as int)).1,
        decreases schemas@.len() - i,
    {
        assert(sv.take(i + 1).drop_last() =~= sv.take(i as int));
        assert(sv.take(i + 1).last() == (schemas@[i as int].0@, schemas@[i as int].1@));
        let ghost was = entries_view(out@);
        let ghost was_names = texts_view(names@);
        match fold_schema(&schemas[i].1) {
            Some(f) => {
                let ghost fv = f@;
                out.push((schemas[i].0.clone(), f));
                names.push(schemas[i].0.clone());
                assert(entries_view(out@) =~= was.push((schemas@[i as int].0@, fv)));
                assert(texts_view(names@) =~= was_names.push(schemas@[i as int].0@));
            },
            None => {
                out.push((schemas[i].0.clone(), schemas[i].1.copy()));
                assert(entries_view(out@) =~= was.push((schemas@[i as int].0@, schemas@[i as int].1@)));
            },
        }
        i = i + 1;
    }
    assert(sv.take(schemas@.len() as int) =~= sv);
    *schemas = out;
    names
}

/// Whether a `type` member lists `null`.
pub open spec fn lists_null(j: Option<JsonV>) -> bool {
    match jarray(j) {
        Some(types) => exists|k: int| 0 <= k < types.len() && types[k] == JsonV::Str("null"@),
        None => false,
    }
}

/// A property, pointed at the synthetic timestamp schema where the document
/// describes it as a `date-time`. A nullable one becomes a `oneOf` of null and
/// the reference, which is how the document already expresses a nullable
/// reference. The property's description is kept.
pub open spec fn timestamp_property(p: JsonV) -> JsonV {
    if jstr(jfield(p, "format"@)) != Some("date-time"@) {
        p
    } else {
        let rewritten = if lists_null(jfield(p, "type"@)) {
            seq![("oneOf"@, JsonV::Array(seq![JsonV::Object(seq![("type"@, JsonV::Str("null"@))]), reference_to(timestamp_name())]))]
        } else {
            reference_to(timestamp_name())->Object_0
        };
        JsonV::Object(
            match jfield(p, "description"@) {
                Some(d) => with_member(rewritten, "description"@, d),
                None => rewritten,
            },
        )
    }
}

/// A schema with each of its properties pointed at the timestamp schema
/// where it is a `date-time`.
pub open spec fn timestamp_schema(schema: JsonV) -> JsonV {
    match schema {
        JsonV::Object(e) => match member_at(e, "properties"@) {
            Some(k) => match e[k].1 {
                JsonV::Object(props) => JsonV::Object(
                    e.update(k, ("properties"@, JsonV::Object(props.map_values(|m: (Seq<char>, JsonV)| (m.0, timestamp_property(m.1)))))),
                ),
                _ => schema,
            },
            None => schema,
        },
        _ => schema,
    }
}

/// Whether a `type` member lists `null`.
fn has_null(j: Option<&Json>) -> (r: bool)
    ensures
        r == lists_null(match j { Some(v) => Some(v@), None => None }),
{
    let types = match j {
        Some(v) => match v.as_array() {
            Some(t) => t,
            None => {
                return false;
            },
        },
        None => {
            return false;
        },
    };
    let ghost tv = crate::json::elements_view(types@);
    let mut i: usize = 0;
    while i < types.len()
        invariant
            i <= types@.len(),
            tv == crate::json::elements_view(types@),
            jarray(match j { Some(v) => Some(v@), None => None }) == Some(tv),
            forall|k: int| 0 <= k < i ==> tv[k] != JsonV::Str("null"@),
        decreases types@.len() - i,
    {
        let is_null = match types[i].as_str() {
            Some(t) => str_eq(t, "null"),
            None => false,
        };
        if is_null {
            assert(tv[i as int] == JsonV::Str("null"@));
            return true;
        }
        proof {
            if tv[i as int] == JsonV::Str("null"@) {
                assert(crate::json::jstr(Some(types@[i as int]@)) == Some("null"@));
            }
        }
        i = i + 1;
    }
    false
}

/// A property, pointed at the synthetic timestamp schema where it is one.
fn timestamp_of(p: &Json) -> (r: Json)
    ensures
        r@ == timestamp_property(p@),
{
    let format = match p.get("format") {
        Some(f) => f.as_str(),
        None => None,
    };
    let is_time = match format {
        Some(f) => str_eq(f, "date-time"),
        None => false,
    };
    if !is_time {
        return p.copy();
    }
    let nullable = has_null(p.get("type"));
    let mut rewritten: Vec<(String, Json)> = Vec::new();
    let r = reference("CanopyTimestamp");
    if nullable {
        let mut null_type: Vec<(String, Json)> = Vec::new();
        null_type.push((String::from_str("type"), Json::String(String::from_str("null"))));
        assert(entries_view(null_type@) =~= seq![("type"@, JsonV::Str("null"@))]);
        let mut choices: Vec<Json> = Vec::new();
        choices.push(crate::json::object(null_type));
        choices.push(r);
        let ghost cv = crate::json::elements_view(choices@);
        assert(cv =~= seq![JsonV::Object(seq![("type"@, JsonV::Str("null"@))]), reference_to(timestamp_name())]);
        rewritten.push((String::from_str("oneOf"), crate::json::array(choices)));
        assert(entries_view(rewritten@) =~= seq![("oneOf"@, JsonV::Array(cv))]);
    } else {
        rewritten = match r {
            Json::Object(e) => e,
            _ => {
                proof {
                    assert(false);
                }
                Vec::new()
            },
        };
        proof {
            crate::json::lemma_object_view(rewritten);
        }
    }
    match p.get("description") {
        Some(d) => set_member(&mut rewritten, "description", d.copy()),
        None => {},
    }
    crate::json::object(rewritten)
}

/// A schema with its date-time properties pointed at the timestamp schema.
fn timestamp_schema_of(schema: &Json) -> (r: Json)
    ensures
        r@ == timestamp_schema(schema@),
{
    let e = match schema {
        Json::Object(e) => e,
        _ => {
            return schema.copy();
        },
    };
    proof {
        crate::json::lemma_object_view(*e);
    }
    let k = match member_index(e, "properties") {
        Some(k) => k,
        None => {
            return schema.copy();
        },
    };
    let props = match &e[k].1 {
        Json::Object(props) => props,
        _ => {
            return schema.copy();
        },
    };
    proof {
        crate::json::lemma_object_view(*props);
    }
    let ghost pv = entries_view(props@);
    let mut rewritten: Vec<(String, Json)> = Vec::new();
    let mut i: usize = 0;
    while i < props.len()
        invariant
            i <= props@.len(),
            pv == entries_view(props@),
            rewritten@.len() == i,
            forall|j: int| 0 <= j < i ==> (#[trigger] rewritten@[j]).0@ == pv[j].0 && rewritten@[j].1@ == timestamp_property(pv[j].1),
        decreases props@.len() - i,
    {
        rewritten.push((props[i].0.clone(), timestamp_of(&props[i].1)));
        i = i + 1;
    }
    assert(entries_view(rewritten@) =~= pv.map_values(|m: (Seq<char>, JsonV)| (m.0, timestamp_property(m.1))));
    let mut out = copy_entries(e);
    let ghost ov = entries_view(out@);
    let new_props = crate::json::object(rewritten);
    let ghost npv = new_props@;
    out.set(k, (String::from_str("properties"), new_props));
    assert(entries_view(out@) =~= ov.update(k as int, ("properties"@, npv)));
    crate::json::object(out)
}

/// Point every `date-time` property at the synthetic timestamp schema.
pub fn timestamps_to_ref(schemas: &mut Vec<(String, Json)>)
    ensures
        entries_view(final(schemas)@) == entries_view(old(schemas)@).map_values(
            |m: (Seq<char>, JsonV)| (m.0, timestamp_schema(m.1)),
        ),
{
    let ghost sv = entries_view(schemas@);
    let mut out: Vec<(String, Json)> = Vec::new();
    let mut i: usize = 0;
    while i < schemas.len()
        invariant
            i <= schemas@.len(),
            sv == entries_view(schemas@),
            out@.len() == i,
            forall|j: int| 0 <= j < i ==> (#[trigger] out@[j]).0@ == sv[j].0 && out@[j].1@ == timestamp_schema(sv[j].1),
        decreases schemas@.len() - i,
    {
        out.push((schemas[i].0.clone(), timestamp_schema_of(&schemas[i].1)));
        i = i + 1;
    }
    assert(entries_view(out@) =~= sv.map_values(|m: (Seq<char>, JsonV)| (m.0, timestamp_schema(m.1))));
    *schemas = out;
}

} // verus!

verus! {

/// The properties declared to hold a credential secret, as `schema.property`.
///
/// Declared rather than detected, because a secret is an ordinary string on
/// the wire. Generation fails when one of these is missing from the
/// document, so renaming a field surfaces here instead of silently
/// unwrapping it.
pub open spec fn secrets() -> Seq<(Seq<char>, Seq<char>)> {
    seq![
        ("BackupTarget"@, "repo_password"@),
        ("CredentialProcessOutput"@, "SecretAccessKey"@),
        ("CredentialProcessOutput"@, "SessionToken"@),
        ("RestoreCredentials"@, "repo_password"@),
    ]
}

/// The properties declared to hold a credential secret.
fn secret_list() -> (r: Vec<(&'static str, &'static str)>)
    ensures
        r@.len() == secrets().len(),
        forall|k: int| 0 <= k < r@.len() ==> (#[trigger] r@[k]).0@ == secrets()[k].0 && r@[k].1@ == secrets()[k].1,
{
    let r = vec![
        ("BackupTarget", "repo_password"),
        ("CredentialProcessOutput", "SecretAccessKey"),
        ("CredentialProcessOutput", "SessionToken"),
        ("RestoreCredentials", "repo_password"),
    ];
    assert(r@.len() == 4);
    r
}

/// A property pointed at the synthetic secret schema, keeping its
/// description.
pub open spec fn secret_property(p: JsonV) -> JsonV {
    JsonV::Object(
        match jfield(p, "description"@) {
            Some(d) => with_member(reference_to(secret_name())->Object_0, "description"@, d),
            None => reference_to(secret_name())->Object_0,
        },
    )
}

/// What the generator says of a declared secret the document lacks.
pub open spec fn missing_secret(schema: Seq<char>, property: Seq<char>) -> Seq<char> {
    "the document has no "@ + schema + "."@ + property
        + ", which is declared a credential secret; a renamed field must be renamed in SECRETS too, or its value would stop being redacted"@
}

/// The schemas with one declared secret pointed at the secret schema, or
/// why the document lacks it.
pub open spec fn secret_step(schemas: Seq<(Seq<char>, JsonV)>, schema: Seq<char>, property: Seq<char>) -> Result<Seq<(Seq<char>, JsonV)>, Seq<char>> {
    match member_at(schemas, schema) {
        None => Err(missing_secret(schema, property)),
        Some(i) => match schemas[i].1 {
            JsonV::Object(se) => match member_at(se, "properties"@) {
                None => Err(missing_secret(schema, property)),
                Some(pk) => match se[pk].1 {
                    JsonV::Object(props) => match member_at(props, property) {
                        None => Err(missing_secret(schema, property)),
                        Some(q) => Ok(
                            schemas.update(
                                i,
                                (
                                    schemas[i].0,
                                    JsonV::Object(
                                        se.update(
                                            pk,
                                            (se[pk].0, JsonV::Object(props.update(q, (props[q].0, secret_property(props[q].1))))),
                                        ),
                                    ),
                                ),
                            ),
                        ),
                    },
                    _ => Err(missing_secret(schema, property)),
                },
            },
            _ => Err(missing_secret(schema, property)),
        },
    }
}

/// The schemas with the first `n` declared secrets pointed at the secret
/// schema, or why the document lacks one.
pub open spec fn secrets_fold(schemas: Seq<(Seq<char>, JsonV)>, n: nat) -> Result<Seq<(Seq<char>, JsonV)>, Seq<char>>
    decreases n,
{
    if n == 0 {
        Ok(schemas)
    } else {
        match secrets_fold(schemas, (n - 1) as nat) {
            Err(e) => Err(e),
            Ok(done) => secret_step(done, secrets()[n - 1].0, secrets()[n - 1].1),
        }
    }
}

/// A member's value pointed at the secret schema.
fn secret_of(p: &Json) -> (r: Json)
    ensures
        r@ == secret_property(p@),
{
    let mut rewritten = match reference("CanopySecret") {
        Json::Object(e) => e,
        _ => {
            proof {
                assert(false);
            }
            Vec::new()
        },
    };
    proof {
        crate::json::lemma_object_view(rewritten);
    }
    match p.get("description") {
        Some(d) => set_member(&mut rewritten, "description", d.copy()),
        None => {},
    }
    crate::json::object(rewritten)
}

/// The members with the one at `k` given a new value.
fn replaced(entries: &Vec<(String, Json)>, k: usize, value: Json) -> (r: Vec<(String, Json)>)
    requires
        k < entries@.len(),
    ensures
        entries_view(r@) == entries_view(entries@).update(k as int, (entries@[k as int].0@, value@)),
{
    let mut out = copy_entries(entries);
    let ghost ov = entries_view(out@);
    let ghost vv = value@;
    let name = entries[k].0.clone();
    out.set(k, (name, value));
    assert(entries_view(out@) =~= ov.update(k as int, (entries@[k as int].0@, vv)));
    out
}

/// Point one declared secret at the secret schema.
fn secret_to_ref(schemas: &Vec<(String, Json)>, schema: &str, property: &str) -> (r: Result<Vec<(String, Json)>, String>)
    ensures
        match r {
            Ok(v) => secret_step(entries_view(schemas@), schema@, property@) == Ok::<Seq<(Seq<char>, JsonV)>, Seq<char>>(entries_view(v@)),
            Err(e) => secret_step(entries_view(schemas@), schema@, property@) == Err::<Seq<(Seq<char>, JsonV)>, Seq<char>>(e@),
        },
{
    let mut missing = String::from_str("the document has no ");
    push_str(&mut missing, schema);
    push_str(&mut missing, ".");
    push_str(&mut missing, property);
    push_str(
        &mut missing,
        ", which is declared a credential secret; a renamed field must be renamed in SECRETS too, or its value would stop being redacted",
    );
    let i = match member_index(schemas, schema) {
        Some(i) => i,
        None => {
            return Err(missing);
        },
    };
    let se = match &schemas[i].1 {
        Json::Object(se) => se,
        _ => {
            return Err(missing);
        },
    };
    proof {
        crate::json::lemma_object_view(*se);
    }
    let pk = match member_index(se, "properties") {
        Some(pk) => pk,
        None => {
            return Err(missing);
        },
    };
    let props = match &se[pk].1 {
        Json::Object(props) => props,
        _ => {
            return Err(missing);
        },
    };
    proof {
        crate::json::lemma_object_view(*props);
    }
    let q = match member_index(props, property) {
        Some(q) => q,
        None => {
            return Err(missing);
        },
    };
    let new_props = crate::json::object(replaced(props, q, secret_of(&props[q].1)));
    let new_schema = crate::json::object(replaced(se, pk, new_props));
    Ok(replaced(schemas, i, new_schema))
}

/// Point each declared secret property at the synthetic secret schema.
pub fn secrets_to_ref(schemas: &mut Vec<(String, Json)>) -> (r: Result<(), String>)
    ensures
        match r {
            Ok(()) => secrets_fold(entries_view(old(schemas)@), secrets().len()) == Ok::<Seq<(Seq<char>, JsonV)>, Seq<char>>(
                entries_view(final(schemas)@),
            ),
            Err(e) => secrets_fold(entries_view(old(schemas)@), secrets().len()) == Err::<Seq<(Seq<char>, JsonV)>, Seq<char>>(e@),
        },
{
    let list = secret_list();
    let ghost start = entries_view(schemas@);
    let mut k: usize = 0;
    while k < list.len()
        invariant
            k <= list@.len() == secrets().len(),
            forall|j: int| 0 <= j < list@.len() ==> (#[trigger] list@[j]).0@ == secrets()[j].0 && list@[j].1@ == secrets()[j].1,
            start == entries_view(old(schemas)@),
            secrets_fold(start, k as nat) == Ok::<Seq<(Seq<char>, JsonV)>, Seq<char>>(entries_view(schemas@)),
        decreases list@.len() - k,
    {
        match secret_to_ref(schemas, list[k].0, list[k].1) {
            Ok(v) => {
                *schemas = v;
            },
            Err(e) => {
                proof {
                    lemma_secrets_stay_failed(start, (k + 1) as nat, e@);
                }
                return Err(e);
            },
        }
        k = k + 1;
    }
    Ok(())
}

/// Once a secret is missing, the whole fold fails the same way.
proof fn lemma_secrets_stay_failed(schemas: Seq<(Seq<char>, JsonV)>, n: nat, e: Seq<char>)
    requires
        n <= secrets().len(),
        secrets_fold(schemas, n) == Err::<Seq<(Seq<char>, JsonV)>, Seq<char>>(e),
    ensures
        secrets_fold(schemas, secrets().len()) == Err::<Seq<(Seq<char>, JsonV)>, Seq<char>>(e),
    decreases secrets().len() - n,
{
    if n < secrets().len() {
        lemma_secrets_stay_failed(schemas, n + 1, e);
    }
}

/// What the generator reads from the document before the wire types are
/// emitted: the document itself, its version, its digest, its schemas after
/// the rewrites with the synthetic schemas added, the names of the schemas it
/// folded, and the names of every schema.
#[derive(Debug)]
pub struct Prepared {
    pub spec: Json,
    pub version: String,
    pub digest: String,
    pub schemas: Vec<(String, Json)>,
    pub open: Vec<String>,
    pub schema_names: Vec<String>,
}

/// What BLAKE3 computes for a text's UTF-8 bytes.
pub uninterp spec fn blake3_of(text: Seq<char>) -> Seq<u8>;

/// `blake3::hash`: the 32-byte digest of the text's UTF-8 bytes.
#[verifier::external_body]
fn blake3_hash(text: &str) -> (r: Vec<u8>)
    ensures
        r@ == blake3_of(text@),
        r@.len() == 32,
{
    blake3::hash(text.as_bytes()).as_bytes().to_vec()
}

/// The lowercase hexadecimal digit for a nibble.
pub open spec fn hex_digit(n: u8) -> char {
    if n < 10 { ((n + 0x30) as u8) as char } else { ((n - 10 + 0x61) as u8) as char }
}

/// Bytes in lowercase hexadecimal, two digits each, high nibble first.
pub open spec fn hex_lower(bytes: Seq<u8>) -> Seq<char>
    decreases bytes.len(),
{
    if bytes.len() == 0 {
        Seq::empty()
    } else {
        hex_lower(bytes.drop_last()) + seq![hex_digit(bytes.last() / 16), hex_digit(bytes.last() % 16)]
    }
}

/// Bytes in lowercase hexadecimal.
fn hex(bytes: &Vec<u8>) -> (r: String)
    ensures
        r@ == hex_lower(bytes@),
{
    let mut out = String::new();
    let mut i: usize = 0;
    while i < bytes.len()
        invariant
            i <= bytes@.len(),
            out@ == hex_lower(bytes@.take(i as int)),
        decreases bytes@.len() - i,
    {
        assert(bytes@.take(i + 1).drop_last() =~= bytes@.take(i as int));
        let b = bytes[i];
        let hi = b / 16;
        let lo = b % 16;
        push_char(&mut out, if hi < 10 { ((hi + 0x30) as u8) as char } else { ((hi - 10 + 0x61) as u8) as char });
        push_char(&mut out, if lo < 10 { ((lo + 0x30) as u8) as char } else { ((lo - 10 + 0x61) as u8) as char });
        assert(out@ =~= hex_lower(bytes@.take(i + 1)));
        i = i + 1;
    }
    assert(bytes@.take(bytes@.len() as int) =~= bytes@);
    out
}

/// The synthetic schemas the replacements key on.
pub open spec fn with_synthetic(schemas: Seq<(Seq<char>, JsonV)>) -> Seq<(Seq<char>, JsonV)> {
    with_member(
        with_member(
            schemas,
            timestamp_name(),
            JsonV::Object(seq![("format"@, JsonV::Str("date-time"@)), ("type"@, JsonV::Str("string"@))]),
        ),
        secret_name(),
        JsonV::Object(seq![("type"@, JsonV::Str("string"@))]),
    )
}

/// The members' names, in order.
pub open spec fn keys_of(e: Seq<(Seq<char>, JsonV)>) -> Seq<Seq<char>> {
    e.map_values(|m: (Seq<char>, JsonV)| m.0)
}

/// What the generator reads from a document's text, or why it refuses it.
pub open spec fn prepare_spec(text: Seq<char>) -> Result<(JsonV, Seq<char>, Seq<char>, Seq<(Seq<char>, JsonV)>, Seq<Seq<char>>), Seq<char>> {
    match parsed(text) {
        None => Err(crate::json::parse_error(text)),
        Some(spec) => prepared_from(spec, blake3_of(text)),
    }
}

/// What the generator reads from a parsed document whose text has this
/// digest, or why it refuses it.
pub open spec fn prepared_from(spec: JsonV, digest: Seq<u8>) -> Result<(JsonV, Seq<char>, Seq<char>, Seq<(Seq<char>, JsonV)>, Seq<Seq<char>>), Seq<char>> {
    match jstr(jpath(spec, seq!["info"@, "version"@])) {
        None => Err(
            "document declares no info.version; it is the version the crate takes, so generation cannot settle one for it"@,
        ),
        Some(version) => if version.len() == 0 {
            Err(
                "document declares no info.version; it is the version the crate takes, so generation cannot settle one for it"@,
            )
        } else {
            match jobject(jpath(spec, seq!["components"@, "schemas"@])) {
                None => Err("document has no components.schemas"@),
                Some(schemas) => {
                    let (folded_schemas, open) = folding(schemas);
                    let stamped = folded_schemas.map_values(|m: (Seq<char>, JsonV)| (m.0, timestamp_schema(m.1)));
                    match secrets_fold(stamped, secrets().len()) {
                        Err(e) => Err(e),
                        Ok(done) => Ok((spec, version, hex_lower(digest), with_synthetic(done), open)),
                    }
                },
            }
        },
    }
}

/// Read the document, and rewrite its schemas for the wire types to be
/// emitted from.
pub fn prepare(text: &str) -> (r: Result<Prepared, String>)
    ensures
        match r {
            Ok(p) => prepare_spec(text@) == Ok::<(JsonV, Seq<char>, Seq<char>, Seq<(Seq<char>, JsonV)>, Seq<Seq<char>>), Seq<char>>(
                (p.spec@, p.version@, p.digest@, entries_view(p.schemas@), texts_view(p.open@)),
            ) && texts_view(p.schema_names@) == keys_of(entries_view(p.schemas@)),
            Err(e) => prepare_spec(text@) == Err::<(JsonV, Seq<char>, Seq<char>, Seq<(Seq<char>, JsonV)>, Seq<Seq<char>>), Seq<char>>(e@),
        },
{
    let spec = match parse(text) {
        Ok(s) => s,
        Err(e) => {
            return Err(e);
        },
    };
    // BLAKE3, named for it, because the crate consumers are migrating off
    // exposed the document's digest under that name.
    let digest = blake3_hash(text);
    prepare_document(spec, &digest)
}

/// Rewrite a parsed document's schemas for the wire types to be emitted
/// from, its text having the digest given.
pub fn prepare_document(spec: Json, digest: &Vec<u8>) -> (r: Result<Prepared, String>)
    ensures
        match r {
            Ok(p) => prepared_from(spec@, digest@) == Ok::<(JsonV, Seq<char>, Seq<char>, Seq<(Seq<char>, JsonV)>, Seq<Seq<char>>), Seq<char>>(
                (p.spec@, p.version@, p.digest@, entries_view(p.schemas@), texts_view(p.open@)),
            ) && texts_view(p.schema_names@) == keys_of(entries_view(p.schemas@)),
            Err(e) => prepared_from(spec@, digest@) == Err::<(JsonV, Seq<char>, Seq<char>, Seq<(Seq<char>, JsonV)>, Seq<Seq<char>>), Seq<char>>(e@),
        },
{
    proof {
        reveal_strlit("info");
        reveal_strlit("version");
        reveal_strlit("components");
        reveal_strlit("schemas");
        assert(seq!["info", "version"].map_values(|k: &str| k@) =~= seq!["info"@, "version"@]);
        assert(seq!["components", "schemas"].map_values(|k: &str| k@) =~= seq!["components"@, "schemas"@]);
    }
    let no_version = "document declares no info.version; it is the version the crate takes, so generation cannot settle one for it";
    let version = match spec.lookup(&["info", "version"]) {
        Some(v) => match v.as_str() {
            Some(s) => s,
            None => {
                return Err(String::from_str(no_version));
            },
        },
        None => {
            return Err(String::from_str(no_version));
        },
    };
    if version.unicode_len() == 0 {
        return Err(String::from_str(no_version));
    }
    let version = String::from_str(version);
    let digest = hex(digest);
    let mut schemas = match spec.lookup(&["components", "schemas"]) {
        Some(Json::Object(e)) => {
            proof {
                crate::json::lemma_object_view(*e);
            }
            copy_entries(e)
        },
        _ => {
            return Err(String::from_str("document has no components.schemas"));
        },
    };
    let open = open_objects_to_additional_properties(&mut schemas);
    timestamps_to_ref(&mut schemas);
    match secrets_to_ref(&mut schemas) {
        Ok(()) => {},
        Err(e) => {
            return Err(e);
        },
    }
    let mut time = Vec::new();
    time.push((String::from_str("format"), Json::String(String::from_str("date-time"))));
    time.push((String::from_str("type"), Json::String(String::from_str("string"))));
    assert(entries_view(time@) =~= seq![("format"@, JsonV::Str("date-time"@)), ("type"@, JsonV::Str("string"@))]);
    set_member(&mut schemas, "CanopyTimestamp", crate::json::object(time));
    let mut secret = Vec::new();
    secret.push((String::from_str("type"), Json::String(String::from_str("string"))));
    assert(entries_view(secret@) =~= seq![("type"@, JsonV::Str("string"@))]);
    set_member(&mut schemas, "CanopySecret", crate::json::object(secret));
    // Captured before the map is consumed: an envelope named after an
    // operation must not collide with a type named after a schema.
    let mut names: Vec<String> = Vec::new();
    let mut i: usize = 0;
    while i < schemas.len()
        invariant
            i <= schemas@.len(),
            names@.len() == i,
            forall|k: int| 0 <= k < i ==> (#[trigger] names@[k])@ == schemas@[k].0@,
        decreases schemas@.len() - i,
    {
        names.push(schemas[i].0.clone());
        i = i + 1;
    }
    assert(texts_view(names@) =~= keys_of(entries_view(schemas@)));
    Ok(Prepared { spec, version, digest, schemas, open, schema_names: names })
}

} // verus!
