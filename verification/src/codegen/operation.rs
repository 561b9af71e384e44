//! What one operation of the document takes and answers, as the generator
//! reads it: its request body, its query parameters, its response.

use vstd::prelude::*;
use crate::codegen::names::{escape_ident, escape_spec, last_segment, reference_type_name, to_uppercase, upper_text};
use crate::json::{jarray, jbool, jfield, jpath, jstr, written, written_text, Json, JsonV};
use crate::text::{push_str, str_eq};

verus! {

/// A result's texts.
pub open spec fn text_result(r: Result<String, String>) -> Result<Seq<char>, Seq<char>> {
    match r {
        Ok(s) => Ok(s@),
        Err(e) => Err(e@),
    }
}

/// An object's members, where the value is an object.
pub open spec fn jobject(j: Option<JsonV>) -> Option<Seq<(Seq<char>, JsonV)>> {
    match j {
        Some(JsonV::Object(e)) => Some(e),
        _ => None,
    }
}

/// What an operation takes as its request body.
#[derive(Debug)]
pub enum Body {
    /// A `$ref`-ed schema, sent as JSON.
    Json(String),
    /// Text canopy reads as one value, such as a download URL.
    Text,
    /// Bytes canopy holds, sent as they are.
    Octets,
}

/// A body as what it names.
pub enum BodyV {
    Json(Seq<char>),
    Text,
    Octets,
}

impl View for Body {
    type V = BodyV;

    open spec fn view(&self) -> BodyV {
        match self {
            Body::Json(t) => BodyV::Json(t@),
            Body::Text => BodyV::Text,
            Body::Octets => BodyV::Octets,
        }
    }
}

/// The Rust type of the envelope field carrying a body.
pub open spec fn field_type_spec(b: BodyV) -> Seq<char> {
    match b {
        BodyV::Json(t) => t,
        BodyV::Text => "::std::string::String"@,
        BodyV::Octets => "::bytes::Bytes"@,
    }
}

/// The media type a body is sent under.
pub open spec fn content_type_spec(b: BodyV) -> Seq<char> {
    match b {
        BodyV::Json(_) => "application/json"@,
        BodyV::Text => "text/plain"@,
        BodyV::Octets => "application/octet-stream"@,
    }
}

impl Body {
    /// The Rust type of the envelope field carrying it.
    pub fn field_type(&self) -> (r: String)
        ensures
            r@ == field_type_spec(self@),
    {
        match self {
            Body::Json(ty) => ty.clone(),
            Body::Text => String::from_str("::std::string::String"),
            Body::Octets => String::from_str("::bytes::Bytes"),
        }
    }

    /// The media type it is sent under.
    pub fn content_type(&self) -> (r: &'static str)
        ensures
            r@ == content_type_spec(self@),
    {
        match self {
            Body::Json(_) => "application/json",
            Body::Text => "text/plain",
            Body::Octets => "application/octet-stream",
        }
    }

    /// A copy of the body.
    pub fn copy(&self) -> (r: Body)
        ensures
            r@ == self@,
    {
        match self {
            Body::Json(t) => Body::Json(t.clone()),
            Body::Text => Body::Text,
            Body::Octets => Body::Octets,
        }
    }
}

/// The expression handing an envelope's non-JSON body to the call plumbing,
/// as the `Option` that says whether there is a body at all.
///
/// A grandfathered envelope's body is optional, because the signature it
/// holds still could not send one; absent, the method sends no body and
/// declares no content type, exactly as that signature always did.
pub open spec fn payload_spec(body: BodyV, optional: bool) -> Seq<char> {
    match (body, optional) {
        (BodyV::Text, true) => "request.body.map(::bytes::Bytes::from)"@,
        (BodyV::Text, false) => "Some(::bytes::Bytes::from(request.body))"@,
        (BodyV::Octets, true) => "request.body"@,
        _ => "Some(request.body)"@,
    }
}

/// The expression handing an envelope's non-JSON body to the call plumbing.
pub fn payload(body: &Body, optional: bool) -> (r: String)
    requires
        !(body@ is Json),
    ensures
        r@ == payload_spec(body@, optional),
{
    match (body, optional) {
        (Body::Text, true) => String::from_str("request.body.map(::bytes::Bytes::from)"),
        (Body::Text, false) => String::from_str("Some(::bytes::Bytes::from(request.body))"),
        (Body::Octets, true) => String::from_str("request.body"),
        _ => String::from_str("Some(request.body)"),
    }
}

/// Refuse to generate rather than fall back to untyped JSON.
pub open spec fn untypeable_spec(what: Seq<char>, path: Seq<char>, verb: Seq<char>, schema: JsonV) -> Seq<char> {
    "the "@ + what + " of "@ + upper_text(verb) + " "@ + path
        + " cannot be typed, and an operation is not served by an untyped JSON body: give the schema a $ref, an array of $ref, or additionalProperties with a $ref, or teach this generator the shape.\nschema: "@
        + written(schema)
}

/// Refuse to generate rather than fall back to untyped JSON.
///
/// Every operation is reached through its generated types, so a schema this
/// generator cannot express is a defect to fix in the document or here.
pub fn untypeable(what: &str, path: &str, verb: &str, schema: &Json) -> (r: String)
    ensures
        r@ == untypeable_spec(what@, path@, verb@, schema@),
{
    let mut r = String::from_str("the ");
    push_str(&mut r, what);
    push_str(&mut r, " of ");
    push_str(&mut r, to_uppercase(verb).as_str());
    push_str(&mut r, " ");
    push_str(&mut r, path);
    push_str(
        &mut r,
        " cannot be typed, and an operation is not served by an untyped JSON body: give the schema a $ref, an array of $ref, or additionalProperties with a $ref, or teach this generator the shape.\nschema: ",
    );
    push_str(&mut r, written_text(schema).as_str());
    r
}

/// The keys leading to an operation's JSON success response schema.
pub open spec fn response_keys() -> Seq<Seq<char>> {
    seq!["responses"@, "200"@, "content"@, "application/json"@, "schema"@]
}

/// The Rust type of an operation's success response, or `None` where it
/// declares no body to parse, or why it cannot be typed.
pub open spec fn response_spec(op: JsonV, path: Seq<char>, verb: Seq<char>) -> Result<Option<Seq<char>>, Seq<char>> {
    match jpath(op, response_keys()) {
        None => Ok(None),
        Some(schema) => match jstr(jfield(schema, "$ref"@)) {
            Some(reference) => Ok(Some(last_segment(reference))),
            None => if jstr(jfield(schema, "type"@)) == Some("array"@) {
                match jstr(jpath(schema, seq!["items"@, "$ref"@])) {
                    Some(item) => Ok(Some("::std::vec::Vec<"@ + last_segment(item) + ">"@)),
                    None => Err(untypeable_spec("response"@, path, verb, schema)),
                }
            } else if jstr(jfield(schema, "type"@)) == Some("object"@) {
                match jstr(jpath(schema, seq!["additionalProperties"@, "$ref"@])) {
                    Some(value) => Ok(
                        Some("::std::collections::HashMap<::std::string::String, "@ + last_segment(value) + ">"@),
                    ),
                    None => Err(untypeable_spec("response"@, path, verb, schema)),
                }
            } else {
                Err(untypeable_spec("response"@, path, verb, schema))
            },
        },
    }
}

/// An optional text as an optional string.
pub open spec fn opt_view(s: Option<String>) -> Option<Seq<char>> {
    match s {
        Some(t) => Some(t@),
        None => None,
    }
}

/// The text a member holds, where it is a string.
fn str_member<'a>(j: &'a Json, key: &str) -> (r: Option<&'a str>)
    ensures
        match r {
            Some(s) => jstr(jfield(j@, key@)) == Some(s@),
            None => jstr(jfield(j@, key@)) is None,
        },
{
    match j.get(key) {
        Some(v) => v.as_str(),
        None => None,
    }
}

/// The text at the end of a path of members, where it is a string.
fn str_at<'a>(j: &'a Json, keys: &[&str]) -> (r: Option<&'a str>)
    ensures
        match r {
            Some(s) => jstr(jpath(j@, keys@.map_values(|k: &str| k@))) == Some(s@),
            None => jstr(jpath(j@, keys@.map_values(|k: &str| k@))) is None,
        },
{
    match j.lookup(keys) {
        Some(v) => v.as_str(),
        None => None,
    }
}

/// The Rust type of an operation's success response, or `None` when it
/// declares no body to parse.
pub fn response(op: &Json, path: &str, verb: &str) -> (r: Result<Option<String>, String>)
    ensures
        match r {
            Ok(t) => response_spec(op@, path@, verb@) == Ok::<Option<Seq<char>>, Seq<char>>(opt_view(t)),
            Err(e) => response_spec(op@, path@, verb@) == Err::<Option<Seq<char>>, Seq<char>>(e@),
        },
{
    proof {
        reveal_strlit("responses");
        reveal_strlit("200");
        reveal_strlit("content");
        reveal_strlit("application/json");
        reveal_strlit("schema");
        reveal_strlit("items");
        reveal_strlit("$ref");
        reveal_strlit("additionalProperties");
        assert(seq!["responses", "200", "content", "application/json", "schema"].map_values(|k: &str| k@) =~= response_keys());
        assert(seq!["items", "$ref"].map_values(|k: &str| k@) =~= seq!["items"@, "$ref"@]);
        assert(seq!["additionalProperties", "$ref"].map_values(|k: &str| k@) =~= seq!["additionalProperties"@, "$ref"@]);
    }
    let schema = match op.lookup(&["responses", "200", "content", "application/json", "schema"]) {
        Some(s) => s,
        None => {
            return Ok(None);
        },
    };
    if let Some(reference) = str_member(schema, "$ref") {
        return Ok(Some(reference_type_name(reference)));
    }
    let kind = str_member(schema, "type");
    let is_array = match kind {
        Some(k) => str_eq(k, "array"),
        None => false,
    };
    let is_object = match kind {
        Some(k) => str_eq(k, "object"),
        None => false,
    };
    if is_array {
        match str_at(schema, &["items", "$ref"]) {
            Some(item) => {
                let mut t = String::from_str("::std::vec::Vec<");
                push_str(&mut t, reference_type_name(item).as_str());
                push_str(&mut t, ">");
                Ok(Some(t))
            },
            None => Err(untypeable("response", path, verb, schema)),
        }
    } else if is_object {
        // A map with a declared value type, e.g. check severities keyed by
        // check name. Its keys are dynamic, so they are not schema properties,
        // but the value type is declared and is carried through to the client.
        match str_at(schema, &["additionalProperties", "$ref"]) {
            Some(value) => {
                let mut t = String::from_str("::std::collections::HashMap<::std::string::String, ");
                push_str(&mut t, reference_type_name(value).as_str());
                push_str(&mut t, ">");
                Ok(Some(t))
            },
            None => Err(untypeable("response", path, verb, schema)),
        }
    } else {
        Err(untypeable("response", path, verb, schema))
    }
}

/// The request body an operation takes, `None` where it declares none, or
/// why it cannot be sent.
pub open spec fn request_body_spec(op: JsonV, path: Seq<char>, verb: Seq<char>) -> Result<Option<BodyV>, Seq<char>> {
    match jobject(jpath(op, seq!["requestBody"@, "content"@])) {
        None => Ok(None),
        Some(content) => if content.len() == 0 {
            Err(
                "the request body of "@ + upper_text(verb) + " "@ + path
                    + " declares no media type at all: declare the one canopy expects, or drop the request body"@,
            )
        } else if content.len() > 1 {
            Err(
                "the request body of "@ + upper_text(verb) + " "@ + path
                    + " declares more than one media type, and the client has no grounds to choose between them: declare the one canopy expects"@,
            )
        } else {
            let media = content[0].0;
            let holder = content[0].1;
            if media == "application/json"@ {
                match jfield(holder, "schema"@) {
                    None => Err(untypeable_spec("request body"@, path, verb, holder)),
                    Some(schema) => match jstr(jfield(schema, "$ref"@)) {
                        Some(reference) => Ok(Some(BodyV::Json(last_segment(reference)))),
                        None => Err(untypeable_spec("request body"@, path, verb, schema)),
                    },
                }
            } else if media == "text/plain"@ {
                Ok(Some(BodyV::Text))
            } else if media == "application/octet-stream"@ {
                Ok(Some(BodyV::Octets))
            } else {
                Err(
                    "the request body of "@ + upper_text(verb) + " "@ + path + " is "@ + media
                        + ", which this generator cannot send: teach it the media type, or declare one it knows (application/json, text/plain, application/octet-stream). An operation is not served by a method that leaves its body behind."@,
                )
            }
        },
    }
}

/// An optional body as what it names.
pub open spec fn opt_body(b: Option<Body>) -> Option<BodyV> {
    match b {
        Some(x) => Some(x@),
        None => None,
    }
}

/// The request body an operation takes, or `None` when it declares none.
///
/// Every media type the client can send is named here, and one it cannot is
/// an error rather than a body quietly left behind: a method that drops the
/// body its operation requires cannot do the thing it is named for.
pub fn request_body(op: &Json, path: &str, verb: &str) -> (r: Result<Option<Body>, String>)
    ensures
        match r {
            Ok(b) => request_body_spec(op@, path@, verb@) == Ok::<Option<BodyV>, Seq<char>>(opt_body(b)),
            Err(e) => request_body_spec(op@, path@, verb@) == Err::<Option<BodyV>, Seq<char>>(e@),
        },
{
    proof {
        reveal_strlit("requestBody");
        reveal_strlit("content");
        assert(seq!["requestBody", "content"].map_values(|k: &str| k@) =~= seq!["requestBody"@, "content"@]);
    }
    let content = match op.lookup(&["requestBody", "content"]) {
        Some(Json::Object(entries)) => entries,
        _ => {
            return Ok(None);
        },
    };
    proof {
        crate::json::lemma_object_view(*content);
    }
    if content.len() != 1 {
        let mut e = String::from_str("the request body of ");
        push_str(&mut e, to_uppercase(verb).as_str());
        push_str(&mut e, " ");
        push_str(&mut e, path);
        if content.len() == 0 {
            push_str(&mut e, " declares no media type at all: declare the one canopy expects, or drop the request body");
        } else {
            // Which of several the client would pick is a decision the
            // document should be making, and a reader of the generated method
            // cannot see.
            push_str(
                &mut e,
                " declares more than one media type, and the client has no grounds to choose between them: declare the one canopy expects",
            );
        }
        return Err(e);
    }
    let media = content[0].0.as_str();
    let holder = &content[0].1;
    if str_eq(media, "application/json") {
        match holder.get("schema") {
            None => Err(untypeable("request body", path, verb, holder)),
            Some(schema) => match str_member(schema, "$ref") {
                Some(reference) => Ok(Some(Body::Json(reference_type_name(reference)))),
                None => Err(untypeable("request body", path, verb, schema)),
            },
        }
    } else if str_eq(media, "text/plain") {
        Ok(Some(Body::Text))
    } else if str_eq(media, "application/octet-stream") {
        Ok(Some(Body::Octets))
    } else {
        let mut e = String::from_str("the request body of ");
        push_str(&mut e, to_uppercase(verb).as_str());
        push_str(&mut e, " ");
        push_str(&mut e, path);
        push_str(&mut e, " is ");
        push_str(&mut e, media);
        push_str(
            &mut e,
            ", which this generator cannot send: teach it the media type, or declare one it knows (application/json, text/plain, application/octet-stream). An operation is not served by a method that leaves its body behind.",
        );
        Err(e)
    }
}

} // verus!
