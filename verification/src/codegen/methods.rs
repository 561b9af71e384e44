//! One client method per operation in canopy's OpenAPI document, routed
//! through the client's shared call plumbing, preceded by the request
//! envelopes those methods take.

use vstd::prelude::*;
use crate::codegen::envelope::{
    concat_texts, envelope, envelope_spec, envelope_type, envelope_type_spec, grandfathered, grandfathered_list,
    opt_seq, params_view, query_pairs, query_pairs_spec, query_params, query_params_spec, renders, texts_view,
    Envelope, EnvelopeV, QueryParamV,
};
use crate::codegen::names::{escape_ident, escape_spec, to_uppercase, upper_text};
use crate::codegen::operation::{
    content_type_spec, jobject, opt_body, opt_view, payload, payload_spec, request_body, request_body_spec, response,
    response_spec, text_result, Body, BodyV,
};
use crate::codegen::paths::{lines, lines_spec, method_name, path_params, path_parts, replace, replace_all};
use crate::json::{jfield, jstr, Json, JsonV};
use crate::relay::order::{lex_less, lex_lt};
use crate::text::{debug_quoted, join, joined, push_str, quoted, str_eq};

verus! {

/// What a method takes beyond its path parameters. The three are mutually
/// exclusive.
#[derive(Debug)]
pub enum Request {
    /// Nothing: the method takes its path parameters and no more.
    Nothing,
    /// A JSON body as an argument of its own, which is how every method with
    /// one was published.
    Json(String),
    /// Everything the operation carries, in one generated struct.
    Envelope(Envelope),
}

/// A request as what it holds.
pub enum RequestV {
    Nothing,
    Json(Seq<char>),
    Envelope(EnvelopeV),
}

impl View for Request {
    type V = RequestV;

    open spec fn view(&self) -> RequestV {
        match self {
            Request::Nothing => RequestV::Nothing,
            Request::Json(t) => RequestV::Json(t@),
            Request::Envelope(e) => RequestV::Envelope(e@),
        }
    }
}

/// One operation, as the client method it becomes.
#[derive(Debug)]
pub struct Operation {
    pub name: String,
    pub verb: String,
    pub path: String,
    pub params: Vec<String>,
    pub request: Request,
    pub response: Option<String>,
    pub summary: Option<String>,
    pub description: Option<String>,
}

/// An operation as what it holds.
pub struct OperationV {
    pub name: Seq<char>,
    pub verb: Seq<char>,
    pub path: Seq<char>,
    pub params: Seq<Seq<char>>,
    pub request: RequestV,
    pub response: Option<Seq<char>>,
    pub summary: Option<Seq<char>>,
    pub description: Option<Seq<char>>,
}

impl View for Operation {
    type V = OperationV;

    open spec fn view(&self) -> OperationV {
        OperationV {
            name: self.name@,
            verb: self.verb@,
            path: self.path@,
            params: texts_view(self.params@),
            request: self.request@,
            response: opt_seq(self.response),
            summary: opt_seq(self.summary),
            description: opt_seq(self.description),
        }
    }
}

/// Operations as what they hold.
pub open spec fn ops_view(v: Seq<Operation>) -> Seq<OperationV> {
    v.map_values(|o: Operation| o@)
}

/// Whether a path item's key names an HTTP verb the client calls.
pub open spec fn http_verb(v: Seq<char>) -> bool {
    v == "get"@ || v == "post"@ || v == "put"@ || v == "delete"@ || v == "patch"@
}

/// The operation a path item's entry becomes, or why the generator refuses
/// it.
///
/// An operation with a plain JSON body and nothing else keeps that body as
/// its own argument; anything else travels in an envelope named after its
/// operation. The method names its request argument `body` or `request`, so
/// a path parameter of that name would be shadowed by it.
pub open spec fn operation_spec(path: Seq<char>, item: JsonV, verb: Seq<char>, op: JsonV) -> Result<OperationV, Seq<char>> {
    let params = path_params(path);
    match request_body_spec(op, path, verb) {
        Err(e) => Err(e),
        Ok(body) => match query_params_spec(op, item, path, verb) {
            Err(e) => Err(e),
            Ok(query) => {
                let request: Result<RequestV, Seq<char>> = if query.len() == 0 && (body is None || body->0 is Json) {
                    Ok(match body {
                        Some(BodyV::Json(ty)) => RequestV::Json(ty),
                        _ => RequestV::Nothing,
                    })
                } else {
                    match jstr(jfield(op, "operationId"@)) {
                        None => Err(
                            upper_text(verb) + " "@ + path
                                + " declares no operationId, which is what its request envelope would be named after"@,
                        ),
                        Some(id) => match envelope_spec(id, path, verb, params, body, query) {
                            Err(e) => Err(e),
                            Ok(env) => Ok(RequestV::Envelope(env)),
                        },
                    }
                };
                match request {
                    Err(e) => Err(e),
                    Ok(request) => {
                        let reserved: Option<Seq<char>> = match request {
                            RequestV::Nothing => None,
                            RequestV::Json(_) => Some("body"@),
                            RequestV::Envelope(_) => Some("request"@),
                        };
                        if reserved is Some && params.contains(reserved->0) {
                            Err(
                                "the path parameter "@ + reserved->0 + " of "@ + upper_text(verb) + " "@ + path
                                    + " has the name this method gives the request it carries, which would shadow it: rename the parameter"@,
                            )
                        } else {
                            match response_spec(op, path, verb) {
                                Err(e) => Err(e),
                                Ok(response) => Ok(
                                    OperationV {
                                        name: method_name(path),
                                        verb,
                                        path,
                                        params,
                                        request,
                                        response,
                                        summary: jstr(jfield(op, "summary"@)),
                                        description: jstr(jfield(op, "description"@)),
                                    },
                                ),
                            }
                        }
                    },
                }
            },
        },
    }
}

/// The text a member holds, where it is a string, as a string of its own.
fn owned_member(j: &Json, key: &str) -> (r: Option<String>)
    ensures
        opt_seq(r) == jstr(jfield(j@, key@)),
{
    match j.get(key) {
        Some(v) => match v.as_str() {
            Some(s) => Some(String::from_str(s)),
            None => None,
        },
        None => None,
    }
}

/// Whether a name is among the names.
fn contains_text(names: &Vec<String>, name: &str) -> (r: bool)
    ensures
        r == texts_view(names@).contains(name@),
{
    let ghost v = texts_view(names@);
    let mut k: usize = 0;
    while k < names.len()
        invariant
            k <= names@.len(),
            v == texts_view(names@),
            forall|j: int| 0 <= j < k ==> v[j] != name@,
        decreases names@.len() - k,
    {
        if str_eq(names[k].as_str(), name) {
            assert(v[k as int] == name@);
            return true;
        }
        k = k + 1;
    }
    false
}

/// The operation a path item's entry becomes.
pub fn operation_of(path: &str, item: &Json, verb: &str, op: &Json) -> (r: Result<Operation, String>)
    ensures
        match r {
            Ok(o) => operation_spec(path@, item@, verb@, op@) == Ok::<OperationV, Seq<char>>(o@),
            Err(e) => operation_spec(path@, item@, verb@, op@) == Err::<OperationV, Seq<char>>(e@),
        },
{
    let (params, name) = path_parts(path);
    let body = match request_body(op, path, verb) {
        Ok(b) => b,
        Err(e) => {
            return Err(e);
        },
    };
    let query = match query_params(op, item, path, verb) {
        Ok(q) => q,
        Err(e) => {
            return Err(e);
        },
    };
    let ghost bv = opt_body(body);
    let ghost qv = params_view(query@);
    let plain = query.len() == 0 && match &body {
        None => true,
        Some(Body::Json(_)) => true,
        _ => false,
    };
    let request = if plain {
        match body {
            Some(Body::Json(ty)) => Request::Json(ty),
            _ => Request::Nothing,
        }
    } else {
        let operation_id = match op.get("operationId") {
            Some(v) => v.as_str(),
            None => None,
        };
        match operation_id {
            None => {
                let mut e = to_uppercase(verb);
                push_str(&mut e, " ");
                push_str(&mut e, path);
                push_str(&mut e, " declares no operationId, which is what its request envelope would be named after");
                return Err(e);
            },
            Some(id) => match envelope(id, path, verb, params.as_slice(), body, query) {
                Ok(env) => Request::Envelope(env),
                Err(e) => {
                    return Err(e);
                },
            },
        }
    };
    let reserved: Option<&str> = match &request {
        Request::Nothing => None,
        Request::Json(_) => Some("body"),
        Request::Envelope(_) => Some("request"),
    };
    if let Some(clash) = reserved {
        if contains_text(&params, clash) {
            let mut e = String::from_str("the path parameter ");
            push_str(&mut e, clash);
            push_str(&mut e, " of ");
            push_str(&mut e, to_uppercase(verb).as_str());
            push_str(&mut e, " ");
            push_str(&mut e, path);
            push_str(
                &mut e,
                " has the name this method gives the request it carries, which would shadow it: rename the parameter",
            );
            return Err(e);
        }
    }
    let response = match response(op, path, verb) {
        Ok(r) => r,
        Err(e) => {
            return Err(e);
        },
    };
    Ok(
        Operation {
            name,
            verb: String::from_str(verb),
            path: String::from_str(path),
            params,
            request,
            response,
            summary: owned_member(op, "summary"),
            description: owned_member(op, "description"),
        },
    )
}

/// The operations of one path item, in the order its entries come, or the
/// first refusal.
pub open spec fn verbs_fold(path: Seq<char>, item: JsonV, entries: Seq<(Seq<char>, JsonV)>) -> Result<Seq<OperationV>, Seq<char>>
    decreases entries.len(),
{
    if entries.len() == 0 {
        Ok(Seq::empty())
    } else {
        match verbs_fold(path, item, entries.drop_last()) {
            Err(e) => Err(e),
            Ok(done) => {
                let (verb, op) = entries.last();
                if !http_verb(verb) {
                    Ok(done)
                } else {
                    match operation_spec(path, item, verb, op) {
                        Err(e) => Err(e),
                        Ok(o) => Ok(done.push(o)),
                    }
                }
            },
        }
    }
}

/// The operations of every path, in the order the paths come, or the first
/// refusal.
pub open spec fn paths_fold(paths: Seq<(Seq<char>, JsonV)>) -> Result<Seq<OperationV>, Seq<char>>
    decreases paths.len(),
{
    if paths.len() == 0 {
        Ok(Seq::empty())
    } else {
        match paths_fold(paths.drop_last()) {
            Err(e) => Err(e),
            Ok(done) => {
                let (path, item) = paths.last();
                match item {
                    JsonV::Object(entries) => match verbs_fold(path, item, entries) {
                        Err(e) => Err(e),
                        Ok(ops) => Ok(done + ops),
                    },
                    _ => Err("a path item is not an object"@),
                }
            },
        }
    }
}

/// The operations a document describes, or why the generator refuses it.
pub open spec fn operations_spec(doc: JsonV) -> Result<Seq<OperationV>, Seq<char>> {
    match jobject(jfield(doc, "paths"@)) {
        None => Err("document has no paths"@),
        Some(paths) => paths_fold(paths),
    }
}

/// Once a prefix of path items fails, the whole document fails the same way.
proof fn lemma_paths_stay_failed(ps: Seq<(Seq<char>, JsonV)>, n: int, e: Seq<char>)
    requires
        0 <= n <= ps.len(),
        paths_fold(ps.take(n)) == Err::<Seq<OperationV>, Seq<char>>(e),
    ensures
        paths_fold(ps) == Err::<Seq<OperationV>, Seq<char>>(e),
    decreases ps.len() - n,
{
    if n < ps.len() {
        assert(ps.take(n + 1).drop_last() =~= ps.take(n));
        lemma_paths_stay_failed(ps, n + 1, e);
    } else {
        assert(ps.take(n) =~= ps);
    }
}

/// Once a prefix of entries fails, the whole item fails the same way.
proof fn lemma_verbs_stay_failed(path: Seq<char>, item: JsonV, es: Seq<(Seq<char>, JsonV)>, n: int, e: Seq<char>)
    requires
        0 <= n <= es.len(),
        verbs_fold(path, item, es.take(n)) == Err::<Seq<OperationV>, Seq<char>>(e),
    ensures
        verbs_fold(path, item, es) == Err::<Seq<OperationV>, Seq<char>>(e),
    decreases es.len() - n,
{
    if n < es.len() {
        assert(es.take(n + 1).drop_last() =~= es.take(n));
        lemma_verbs_stay_failed(path, item, es, n + 1, e);
    } else {
        assert(es.take(n) =~= es);
    }
}

/// Whether a path item's key names an HTTP verb the client calls.
fn is_http_verb(v: &str) -> (r: bool)
    ensures
        r == http_verb(v@),
{
    str_eq(v, "get") || str_eq(v, "post") || str_eq(v, "put") || str_eq(v, "delete") || str_eq(v, "patch")
}

/// The operations of one path item.
fn item_operations(path: &str, item: &Json, out: &mut Vec<Operation>) -> (r: Result<(), String>)
    ensures
        match (r, match item@ {
            JsonV::Object(entries) => verbs_fold(path@, item@, entries),
            _ => Err("a path item is not an object"@),
        }) {
            (Ok(()), Ok(ops)) => ops_view(final(out)@) == ops_view(old(out)@) + ops,
            (Err(e), Err(x)) => e@ == x,
            _ => false,
        },
{
    let entries = match item {
        Json::Object(entries) => entries,
        _ => {
            return Err(String::from_str("a path item is not an object"));
        },
    };
    proof {
        crate::json::lemma_object_view(*entries);
    }
    let ghost ev = crate::json::entries_view(entries@);
    let ghost before = ops_view(out@);
    let mut i: usize = 0;
    assert(ev.take(0) =~= Seq::<(Seq<char>, JsonV)>::empty());
    assert(ops_view(out@) =~= before + Seq::<OperationV>::empty());
    while i < entries.len()
        invariant
            i <= entries@.len(),
            ev == crate::json::entries_view(entries@),
            item@ == JsonV::Object(ev),
            before == ops_view(old(out)@),
            verbs_fold(path@, item@, ev.take(i as int)) matches Ok(done) && ops_view(out@) == before + done,
        decreases entries@.len() - i,
    {
        assert(ev.take(i + 1).drop_last() =~= ev.take(i as int));
        assert(ev.take(i + 1).last() == (entries@[i as int].0@, entries@[i as int].1@));
        let verb = entries[i].0.as_str();
        if is_http_verb(verb) {
            match operation_of(path, item, verb, &entries[i].1) {
                Ok(o) => {
                    let ghost ov = o@;
                    let ghost was = ops_view(out@);
                    out.push(o);
                    assert(ops_view(out@) =~= was.push(ov));
                },
                Err(e) => {
                    proof {
                        lemma_verbs_stay_failed(path@, item@, ev, i + 1, e@);
                    }
                    return Err(e);
                },
            }
        }
        i = i + 1;
    }
    assert(ev.take(entries@.len() as int) =~= ev);
    Ok(())
}

/// The operations a document describes.
pub fn operations(doc: &Json) -> (r: Result<Vec<Operation>, String>)
    ensures
        match r {
            Ok(v) => operations_spec(doc@) == Ok::<Seq<OperationV>, Seq<char>>(ops_view(v@)),
            Err(e) => operations_spec(doc@) == Err::<Seq<OperationV>, Seq<char>>(e@),
        },
{
    let paths = match doc.get("paths") {
        Some(Json::Object(entries)) => entries,
        _ => {
            return Err(String::from_str("document has no paths"));
        },
    };
    proof {
        crate::json::lemma_object_view(*paths);
    }
    let ghost pv = crate::json::entries_view(paths@);
    let mut out: Vec<Operation> = Vec::new();
    let mut i: usize = 0;
    assert(pv.take(0) =~= Seq::<(Seq<char>, JsonV)>::empty());
    assert(ops_view(out@) =~= Seq::<OperationV>::empty());
    while i < paths.len()
        invariant
            i <= paths@.len(),
            pv == crate::json::entries_view(paths@),
            jobject(jfield(doc@, "paths"@)) == Some(pv),
            paths_fold(pv.take(i as int)) == Ok::<Seq<OperationV>, Seq<char>>(ops_view(out@)),
        decreases paths@.len() - i,
    {
        assert(pv.take(i + 1).drop_last() =~= pv.take(i as int));
        assert(pv.take(i + 1).last() == (paths@[i as int].0@, paths@[i as int].1@));
        match item_operations(paths[i].0.as_str(), &paths[i].1, &mut out) {
            Ok(()) => {},
            Err(e) => {
                proof {
                    lemma_paths_stay_failed(pv, i + 1, e@);
                }
                return Err(e);
            },
        }
        i = i + 1;
    }
    assert(pv.take(paths@.len() as int) =~= pv);
    Ok(out)
}

/// Whether an operation of the verb and path is among them.
pub open spec fn has_operation(ops: Seq<OperationV>, verb: Seq<char>, path: Seq<char>) -> bool {
    exists|k: int| 0 <= k < ops.len() && (#[trigger] ops[k]).verb == verb && ops[k].path == path
}

/// What the generator says of a grandfathered method the document no longer
/// has.
pub open spec fn moved_message(verb: Seq<char>, path: Seq<char>) -> Seq<char> {
    upper_text(verb) + " "@ + path
        + " is listed as a method published before its body could be expressed, but the document has no such operation: the path moved, and the method it names would change shape"@
}

/// The first grandfathered method, in the ledger's order, that no operation
/// matches: a ledger entry matching nothing means a grandfathered path moved,
/// which would quietly reshape the method that entry exists to hold still.
pub open spec fn ledger_error(ops: Seq<OperationV>) -> Option<Seq<char>> {
    let a = "/artifacts/groups/{group}/{version}/{artifact_type}/{platform}"@;
    let b = "/artifacts/{version}/{artifact_type}/{platform}"@;
    let c = "/versions/{version}"@;
    if !has_operation(ops, "post"@, a) {
        Some(moved_message("post"@, a))
    } else if !has_operation(ops, "post"@, b) {
        Some(moved_message("post"@, b))
    } else if !has_operation(ops, "post"@, c) {
        Some(moved_message("post"@, c))
    } else {
        None
    }
}

/// The ledger's check: the first grandfathered method no operation matches.
fn check_ledger(ops: &Vec<Operation>) -> (r: Option<String>)
    ensures
        opt_seq(r) == ledger_error(ops_view(ops@)),
{
    let ghost ov = ops_view(ops@);
    let list = crate::codegen::envelope::grandfathered_list();
    proof {
        reveal_strlit("post");
        reveal_strlit("/artifacts/groups/{group}/{version}/{artifact_type}/{platform}");
        reveal_strlit("/artifacts/{version}/{artifact_type}/{platform}");
        reveal_strlit("/versions/{version}");
    }
    let mut k: usize = 0;
    while k < 3
        invariant
            k <= 3,
            list@.len() == 3,
            ov == ops_view(ops@),
            list@[0].0@ == "post"@ && list@[0].1@ == "/artifacts/groups/{group}/{version}/{artifact_type}/{platform}"@,
            list@[1].0@ == "post"@ && list@[1].1@ == "/artifacts/{version}/{artifact_type}/{platform}"@,
            list@[2].0@ == "post"@ && list@[2].1@ == "/versions/{version}"@,
            forall|j: int| 0 <= j < k ==> has_operation(ov, (#[trigger] list@[j]).0@, list@[j].1@),
        decreases 3 - k,
    {
        let (verb, path) = list[k];
        let mut found = false;
        let mut i: usize = 0;
        while i < ops.len()
            invariant
                i <= ops@.len(),
                ov == ops_view(ops@),
                found ==> has_operation(ov, verb@, path@),
                !found ==> forall|j: int| 0 <= j < i ==> !((#[trigger] ov[j]).verb == verb@ && ov[j].path == path@),
            decreases ops@.len() - i,
        {
            if str_eq(ops[i].verb.as_str(), verb) && str_eq(ops[i].path.as_str(), path) {
                assert(ov[i as int].verb == verb@ && ov[i as int].path == path@);
                found = true;
            }
            i = i + 1;
        }
        if !found {
            let mut e = to_uppercase(verb);
            push_str(&mut e, " ");
            push_str(&mut e, path);
            push_str(
                &mut e,
                " is listed as a method published before its body could be expressed, but the document has no such operation: the path moved, and the method it names would change shape",
            );
            return Some(e);
        }
        k = k + 1;
    }
    None
}

/// The first earlier operation whose envelope has the name.
pub open spec fn envelope_named(ops: Seq<OperationV>, name: Seq<char>) -> Option<int>
    decreases ops.len(),
{
    if ops.len() == 0 {
        None
    } else {
        match ops[0].request {
            RequestV::Envelope(env) if env.name == name => Some(0),
            _ => match envelope_named(ops.drop_first(), name) {
                Some(k) => Some(k + 1),
                None => None,
            },
        }
    }
}

/// The first envelope that would collide: with a schema the document
/// declares, or with an earlier operation's envelope of the same name.
pub open spec fn envelope_error(ops: Seq<OperationV>, schema_names: Seq<Seq<char>>) -> Option<Seq<char>>
    decreases ops.len(),
{
    if ops.len() == 0 {
        None
    } else {
        match envelope_error(ops.drop_last(), schema_names) {
            Some(e) => Some(e),
            None => {
                let op = ops.last();
                match op.request {
                    RequestV::Envelope(env) => if schema_names.contains(env.name) {
                        Some(
                            "the request envelope for "@ + upper_text(op.verb) + " "@ + op.path + " would be named "@
                                + env.name
                                + ", which the document already declares as a schema: rename one of the two"@,
                        )
                    } else {
                        match envelope_named(ops.drop_last(), env.name) {
                            Some(k) => Some(
                                ops[k].path + " and "@ + op.path + " both generate a request named "@ + env.name
                                    + ", because their operationIds agree: give one of them an operationId of its own"@,
                            ),
                            None => None,
                        }
                    },
                    _ => None,
                }
            },
        }
    }
}

/// Once a prefix collides, the whole list's first collision is that one.
proof fn lemma_collision_kept(ops: Seq<OperationV>, names: Seq<Seq<char>>, n: int, e: Seq<char>)
    requires
        0 <= n <= ops.len(),
        envelope_error(ops.take(n), names) == Some(e),
    ensures
        envelope_error(ops, names) == Some(e),
    decreases ops.len() - n,
{
    if n < ops.len() {
        assert(ops.take(n + 1).drop_last() =~= ops.take(n));
        lemma_collision_kept(ops, names, n + 1, e);
    } else {
        assert(ops.take(n) =~= ops);
    }
}

/// Where an envelope of the name first appears among the first `n`.
fn find_envelope(ops: &Vec<Operation>, n: usize, name: &str) -> (r: Option<usize>)
    requires
        n <= ops@.len(),
    ensures
        match r {
            Some(k) => k < n && envelope_named(ops_view(ops@).take(n as int), name@) == Some(k as int),
            None => envelope_named(ops_view(ops@).take(n as int), name@) is None,
        },
{
    let ghost ov = ops_view(ops@).take(n as int);
    let mut i: usize = 0;
    assert(ov.skip(0) =~= ov);
    while i < n
        invariant
            i <= n <= ops@.len(),
            ov == ops_view(ops@).take(n as int),
            envelope_named(ov, name@) == match envelope_named(ov.skip(i as int), name@) {
                Some(k) => Some(k + i),
                None => None,
            },
        decreases n - i,
    {
        assert(ov.skip(i as int).drop_first() =~= ov.skip(i + 1));
        assert(ov.skip(i as int)[0] == ops@[i as int]@);
        if let Request::Envelope(env) = &ops[i].request {
            if str_eq(env.name.as_str(), name) {
                return Some(i);
            }
        }
        i = i + 1;
    }
    assert(ov.skip(n as int) =~= Seq::<OperationV>::empty());
    None
}

/// The first envelope that would collide.
///
/// utoipa derives an operationId from the handler's name, so two handlers of
/// the same name in different modules would generate one request type twice
/// and the generated crate would not compile.
fn check_envelopes(ops: &Vec<Operation>, schema_names: &Vec<String>) -> (r: Option<String>)
    ensures
        opt_seq(r) == envelope_error(ops_view(ops@), texts_view(schema_names@)),
{
    let ghost ov = ops_view(ops@);
    let ghost names = texts_view(schema_names@);
    let mut i: usize = 0;
    assert(ov.take(0) =~= Seq::<OperationV>::empty());
    while i < ops.len()
        invariant
            i <= ops@.len(),
            ov == ops_view(ops@),
            names == texts_view(schema_names@),
            envelope_error(ov.take(i as int), names) is None,
        decreases ops@.len() - i,
    {
        assert(ov.take(i + 1).drop_last() =~= ov.take(i as int));
        assert(ov.take(i + 1).last() == ops@[i as int]@);
        let op = &ops[i];
        if let Request::Envelope(env) = &op.request {
            if contains_text(schema_names, env.name.as_str()) {
                let mut e = String::from_str("the request envelope for ");
                push_str(&mut e, to_uppercase(op.verb.as_str()).as_str());
                push_str(&mut e, " ");
                push_str(&mut e, op.path.as_str());
                push_str(&mut e, " would be named ");
                push_str(&mut e, env.name.as_str());
                push_str(&mut e, ", which the document already declares as a schema: rename one of the two");
                proof {
                    lemma_collision_kept(ov, names, i + 1, e@);
                }
                return Some(e);
            }
            match find_envelope(ops, i, env.name.as_str()) {
                Some(k) => {
                    assert(ov.take(i as int)[k as int] == ov[k as int]);
                    let mut e = ops[k].path.clone();
                    push_str(&mut e, " and ");
                    push_str(&mut e, op.path.as_str());
                    push_str(&mut e, " both generate a request named ");
                    push_str(&mut e, env.name.as_str());
                    push_str(&mut e, ", because their operationIds agree: give one of them an operationId of its own");
                    proof {
                        assert(ov.take(i + 1).drop_last()[k as int] == ov[k as int]);
                        lemma_collision_kept(ov, names, i + 1, e@);
                    }
                    return Some(e);
                },
                None => {},
            }
        }
        i = i + 1;
    }
    assert(ov.take(ops@.len() as int) =~= ov);
    None
}

/// How many operations have the name.
pub open spec fn named_count(ops: Seq<OperationV>, name: Seq<char>) -> nat
    decreases ops.len(),
{
    if ops.len() == 0 {
        0
    } else {
        named_count(ops.drop_last(), name) + if ops.last().name == name { 1nat } else { 0nat }
    }
}

/// Whether more than one operation has the name: where a path is served by
/// more than one verb, the verb is prefixed to tell its methods apart.
fn collides(ops: &Vec<Operation>, name: &str) -> (r: bool)
    ensures
        r == (named_count(ops_view(ops@), name@) > 1),
{
    let ghost ov = ops_view(ops@);
    let mut n: usize = 0;
    let mut i: usize = 0;
    assert(ov.take(0) =~= Seq::<OperationV>::empty());
    while i < ops.len()
        invariant
            i <= ops@.len(),
            ov == ops_view(ops@),
            n == if named_count(ov.take(i as int), name@) > 1 { 2 } else { named_count(ov.take(i as int), name@) },
        decreases ops@.len() - i,
    {
        assert(ov.take(i + 1).drop_last() =~= ov.take(i as int));
        assert(ov.take(i + 1).last() == ops@[i as int]@);
        if str_eq(ops[i].name.as_str(), name) && n < 2 {
            n = n + 1;
        }
        i = i + 1;
    }
    assert(ov.take(ops@.len() as int) =~= ov);
    n > 1
}

/// Whether an operation sorts before another: by path, then by verb.
pub open spec fn op_before(a: OperationV, b: OperationV) -> bool {
    lex_lt(a.path, b.path) || (a.path == b.path && lex_lt(a.verb, b.verb))
}

/// Where `x` goes among operations already in order: after every one that
/// does not sort after it, so operations that tie keep their order.
pub open spec fn insert_op(s: Seq<OperationV>, x: OperationV) -> Seq<OperationV>
    decreases s.len(),
{
    if s.len() == 0 {
        seq![x]
    } else if op_before(x, s.last()) {
        insert_op(s.drop_last(), x).push(s.last())
    } else {
        s.push(x)
    }
}

/// The operations in order of path and verb, ties keeping the order they
/// came in.
pub open spec fn sort_ops(s: Seq<OperationV>) -> Seq<OperationV>
    decreases s.len(),
{
    if s.len() == 0 {
        Seq::empty()
    } else {
        insert_op(sort_ops(s.drop_last()), s.last())
    }
}

/// Inserting at the place found by scanning back from the end.
proof fn lemma_insert_op_at(s: Seq<OperationV>, x: OperationV, j: int)
    requires
        0 <= j <= s.len(),
        forall|k: int| j <= k < s.len() ==> op_before(x, #[trigger] s[k]),
        j > 0 ==> !op_before(x, s[j - 1]),
    ensures
        insert_op(s, x) == s.take(j) + seq![x] + s.skip(j),
    decreases s.len(),
{
    if s.len() == 0 {
        assert(s.take(j) + seq![x] + s.skip(j) =~= seq![x]);
    } else if j == s.len() {
        assert(s.take(j) + seq![x] + s.skip(j) =~= s.push(x));
    } else {
        let t = s.drop_last();
        assert forall|k: int| j <= k < t.len() implies op_before(x, #[trigger] t[k]) by {
            assert(t[k] == s[k]);
        }
        if j > 0 {
            assert(t[j - 1] == s[j - 1]);
        }
        lemma_insert_op_at(t, x, j);
        assert(s.take(j) + seq![x] + s.skip(j) =~= (t.take(j) + seq![x] + t.skip(j)).push(s.last()));
    }
}

/// Whether an operation sorts before another.
fn before(a: &Operation, b: &Operation) -> (r: bool)
    ensures
        r == op_before(a@, b@),
{
    lex_less(a.path.as_str(), b.path.as_str())
        || (str_eq(a.path.as_str(), b.path.as_str()) && lex_less(a.verb.as_str(), b.verb.as_str()))
}

/// The operations in order of path and verb, ties keeping their order.
pub fn sorted_operations(v: Vec<Operation>) -> (r: Vec<Operation>)
    ensures
        ops_view(r@) == sort_ops(ops_view(v@)),
{
    let ghost iv = ops_view(v@);
    let mut out: Vec<Operation> = Vec::new();
    let mut rest = v;
    let total = rest.len();
    let ghost n = iv.len();
    let mut i: usize = 0;
    while rest.len() > 0
        invariant
            iv == ops_view(v@),
            n == iv.len(),
            n == v@.len(),
            n == total,
            i + rest@.len() == n,
            forall|k: int| 0 <= k < rest@.len() ==> (#[trigger] rest@[k])@ == iv[i + k],
            ops_view(out@) == sort_ops(iv.take(i as int)),
        decreases rest@.len(),
    {
        let x = rest.remove(0);
        assert(x@ == iv[i as int]);
        let ghost was = ops_view(out@);
        let mut j: usize = out.len();
        while j > 0 && before(&x, &out[j - 1])
            invariant
                j <= out@.len(),
                was == ops_view(out@),
                forall|k: int| j <= k < out@.len() ==> op_before(x@, #[trigger] was[k]),
            decreases j,
        {
            assert(was[j - 1] == out@[j - 1]@);
            j = j - 1;
        }
        proof {
            if j > 0 {
                assert(was[j - 1] == out@[j - 1]@);
            }
            lemma_insert_op_at(was, x@, j as int);
            assert(iv.take(i + 1).drop_last() =~= iv.take(i as int));
            assert(iv.take(i + 1).last() == x@);
        }
        let ghost xv = x@;
        out.insert(j, x);
        assert(ops_view(out@) =~= was.take(j as int) + seq![xv] + was.skip(j as int));
        i = i + 1;
    }
    assert(iv.take(n as int) =~= iv);
    out
}

/// The first path parameter with no identifier form, as the error it
/// gives.
pub open spec fn param_error(params: Seq<Seq<char>>) -> Option<Seq<char>>
    decreases params.len(),
{
    if params.len() == 0 {
        None
    } else {
        match param_error(params.drop_last()) {
            Some(e) => Some(e),
            None => match escape_spec(params.last()) {
                Err(e) => Some(e),
                Ok(_) => None,
            },
        }
    }
}

/// A name's identifier, where it has one.
pub open spec fn ident_of(name: Seq<char>) -> Seq<char> {
    match escape_spec(name) {
        Ok(i) => i,
        Err(_) => Seq::empty(),
    }
}

/// The envelope a request carries, if it is one.
pub open spec fn envelope_of(r: RequestV) -> Option<EnvelopeV> {
    match r {
        RequestV::Envelope(e) => Some(e),
        _ => None,
    }
}

/// The path parameter an operation's envelope absorbs, if any.
pub open spec fn absorbed_of(op: OperationV) -> Option<Seq<char>> {
    match envelope_of(op.request) {
        Some(e) => e.absorbed,
        None => None,
    }
}

/// One path parameter's argument of the method.
pub open spec fn arg_text(op: OperationV, p: Seq<char>) -> Seq<char> {
    if envelope_of(op.request) is Some && absorbed_of(op) == Some(p) {
        ", "@ + ident_of(p) + ": impl ::std::convert::Into<"@ + envelope_of(op.request)->0.name + ">"@
    } else {
        ", "@ + ident_of(p) + ": &str"@
    }
}

/// The method's arguments after `&self`.
pub open spec fn args_text(op: OperationV) -> Seq<char> {
    concat_texts(op.params.map_values(|p: Seq<char>| arg_text(op, p)))
        + (match op.request {
            RequestV::Json(ty) => ", body: &"@ + ty,
            _ => Seq::empty(),
        })
        + (match envelope_of(op.request) {
            Some(e) => if e.absorbed is None { ", request: "@ + e.name } else { Seq::empty() },
            None => Seq::empty(),
        })
}

/// The path template with each parameter's braces replaced by `{}`.
pub open spec fn template_of(path: Seq<char>, params: Seq<Seq<char>>) -> Seq<char>
    decreases params.len(),
{
    if params.len() == 0 {
        path
    } else {
        replace_all(template_of(path, params.drop_last()), "{"@ + params.last() + "}"@, "{}"@)
    }
}

/// The value a path parameter is filled from.
pub open spec fn filled_text(op: OperationV, p: Seq<char>) -> Seq<char> {
    if absorbed_of(op) == Some(p) {
        "request."@ + ident_of(p)
    } else {
        ident_of(p)
    }
}

/// The pair a path parameter is checked as.
pub open spec fn checked_text(op: OperationV, p: Seq<char>) -> Seq<char> {
    "("@ + debug_quoted(p) + ", "@ + (if absorbed_of(op) == Some(p) { "&request."@ + ident_of(p) } else { ident_of(p) }) + ")"@
}

/// The expression building the request path.
pub open spec fn path_text(op: OperationV, pairs: Seq<char>) -> Seq<char> {
    let built = if op.params.len() == 0 {
        debug_quoted(op.path)
    } else {
        "&format!("@ + debug_quoted(template_of(op.path, op.params)) + ", "@
            + joined(op.params.map_values(|p: Seq<char>| filled_text(op, p)), ", "@) + ")"@
    };
    match envelope_of(op.request) {
        Some(e) => if e.query.len() > 0 {
            "&crate::query("@ + built + ", &["@ + pairs + "])"@
        } else {
            built
        },
        None => built,
    }
}

/// Whether the operation sends its body as a payload rather than as JSON.
pub open spec fn payload_body(op: OperationV) -> Option<BodyV> {
    match envelope_of(op.request) {
        Some(e) => match e.body {
            Some(BodyV::Text) => Some(BodyV::Text),
            Some(BodyV::Octets) => Some(BodyV::Octets),
            _ => None,
        },
        None => None,
    }
}

/// The call plumbing the method goes through.
pub open spec fn call_text(op: OperationV) -> Seq<char> {
    if payload_body(op) is Some {
        if op.response is Some { "call_payload_json"@ } else { "call_payload_empty"@ }
    } else {
        if op.response is Some { "call_json"@ } else { "call_empty"@ }
    }
}

/// What the method hands the call plumbing as its body.
///
/// A body the document declares as text or bytes goes up as a payload under
/// its own media type; everything else routes through the JSON plumbing. An
/// optional JSON body is already an `Option`, which is what the plumbing
/// takes.
pub open spec fn tail_text(op: OperationV) -> Seq<char> {
    match payload_body(op) {
        Some(b) => payload_spec(b, absorbed_of(op) is Some) + ", "@ + debug_quoted(content_type_spec(b)),
        None => match op.request {
            RequestV::Nothing => "None::<&()>"@,
            RequestV::Json(_) => "Some(body)"@,
            RequestV::Envelope(e) => match e.body {
                None => "None::<&()>"@,
                _ => if e.absorbed is Some { "request.body.as_ref()"@ } else { "Some(&request.body)"@ },
            },
        },
    }
}

/// A line of prose as a doc comment line.
pub open spec fn doc_line(line: Seq<char>) -> Seq<char> {
    if line.len() == 0 { "\t///\n"@ } else { "\t/// "@ + line + "\n"@ }
}

/// A block of prose as doc comment lines, closed by an empty one.
pub open spec fn doc_block(text: Option<Seq<char>>) -> Seq<char> {
    match text {
        Some(t) => concat_texts(lines_spec(t).map_values(|l: Seq<char>| doc_line(l))) + "\t///\n"@,
        None => Seq::empty(),
    }
}

/// The method's doc comment and signature, up to its opening brace.
pub open spec fn head_text(op: OperationV, collide: bool) -> Seq<char> {
    doc_block(op.summary) + doc_block(op.description) + "\t/// `"@ + upper_text(op.verb) + " "@ + op.path + "`\n"@
        + "\tpub async fn "@ + (if collide { op.verb + "_"@ + op.name } else { op.name }) + "(&self"@
        + args_text(op) + ") -> "@ + (match op.response {
            Some(ty) => "crate::Result<"@ + ty + ">"@,
            None => "crate::Result<()>"@,
        }) + " {\n"@
}

/// The line turning what a grandfathered method took into its envelope.
pub open spec fn setup_text(op: OperationV, absorbed_ident: Option<Seq<char>>) -> Seq<char> {
    match absorbed_ident {
        Some(i) => "\t\tlet request: "@ + envelope_of(op.request)->0.name + " = "@ + i + ".into();\n"@,
        None => Seq::empty(),
    }
}

/// The line checking the path parameters before they are placed in the path.
pub open spec fn segments_text(op: OperationV) -> Seq<char> {
    if op.params.len() > 0 {
        "\t\tcrate::segments("@ + debug_quoted(op.path) + ", &["@
            + joined(op.params.map_values(|p: Seq<char>| checked_text(op, p)), ", "@) + "])?;\n"@
    } else {
        Seq::empty()
    }
}

/// The line making the call, and the method's closing brace.
pub open spec fn call_line_text(op: OperationV, path: Seq<char>) -> Seq<char> {
    "\t\tself."@ + call_text(op) + "(::http::Method::"@ + upper_text(op.verb) + ", "@ + path + ", "@ + tail_text(op)
        + ").await\n\t}\n"@
}

/// The pairs of an operation's query parameters, where it has any.
pub open spec fn pairs_of(op: OperationV) -> Result<Seq<char>, Seq<char>> {
    match envelope_of(op.request) {
        Some(e) => if e.query.len() > 0 { query_pairs_spec(e.query) } else { Ok(Seq::empty()) },
        None => Ok(Seq::empty()),
    }
}

/// The identifier of the path parameter an envelope absorbs, where it does.
pub open spec fn absorbed_ident_of(op: OperationV) -> Result<Option<Seq<char>>, Seq<char>> {
    match absorbed_of(op) {
        Some(a) => match escape_spec(a) {
            Ok(i) => Ok(Some(i)),
            Err(e) => Err(e),
        },
        None => Ok(None),
    }
}

/// The method an operation becomes, or why it cannot be named.
pub open spec fn method_text_spec(op: OperationV, collide: bool) -> Result<Seq<char>, Seq<char>> {
    match param_error(op.params) {
        Some(e) => Err(e),
        None => match pairs_of(op) {
            Err(e) => Err(e),
            Ok(pairs) => match absorbed_ident_of(op) {
                Err(e) => Err(e),
                Ok(absorbed_ident) => Ok(
                    head_text(op, collide) + setup_text(op, absorbed_ident) + segments_text(op)
                        + call_line_text(op, path_text(op, pairs)),
                ),
            },
        },
    }
}

/// Once a prefix holds a parameter with no identifier form, the whole list's
/// first such is that one.
proof fn lemma_param_error_kept(ps: Seq<Seq<char>>, n: int, e: Seq<char>)
    requires
        0 <= n <= ps.len(),
        param_error(ps.take(n)) == Some(e),
    ensures
        param_error(ps) == Some(e),
    decreases ps.len() - n,
{
    if n < ps.len() {
        assert(ps.take(n + 1).drop_last() =~= ps.take(n));
        lemma_param_error_kept(ps, n + 1, e);
    } else {
        assert(ps.take(n) =~= ps);
    }
}

/// The identifiers of the path parameters, or the first one's error.
fn param_idents(params: &Vec<String>) -> (r: Result<Vec<String>, String>)
    ensures
        match r {
            Ok(v) => param_error(texts_view(params@)) is None && texts_view(v@) == texts_view(params@).map_values(
                |p: Seq<char>| ident_of(p),
            ),
            Err(e) => param_error(texts_view(params@)) == Some(e@),
        },
{
    let ghost pv = texts_view(params@);
    let mut out: Vec<String> = Vec::new();
    let mut i: usize = 0;
    assert(pv.take(0) =~= Seq::<Seq<char>>::empty());
    while i < params.len()
        invariant
            i <= params@.len(),
            pv == texts_view(params@),
            param_error(pv.take(i as int)) is None,
            texts_view(out@) == pv.take(i as int).map_values(|p: Seq<char>| ident_of(p)),
        decreases params@.len() - i,
    {
        assert(pv.take(i + 1).drop_last() =~= pv.take(i as int));
        assert(pv.take(i + 1).last() == params@[i as int]@);
        match escape_ident(params[i].as_str()) {
            Ok(ident) => {
                let ghost was = texts_view(out@);
                let ghost iv = ident@;
                out.push(ident);
                assert(texts_view(out@) =~= was.push(iv));
                assert(pv.take(i + 1).map_values(|p: Seq<char>| ident_of(p)) =~= pv.take(i as int).map_values(
                    |p: Seq<char>| ident_of(p),
                ).push(iv));
            },
            Err(e) => {
                proof {
                    lemma_param_error_kept(pv, i + 1, e@);
                }
                return Err(e);
            },
        }
        i = i + 1;
    }
    assert(pv.take(params@.len() as int) =~= pv);
    Ok(out)
}

/// A block of prose as doc comment lines.
fn doc_lines(text: &Option<String>) -> (r: String)
    ensures
        r@ == doc_block(opt_seq(*text)),
{
    let t = match text {
        Some(t) => t,
        None => {
            return String::new();
        },
    };
    let ls = lines(t.as_str());
    let ghost lv = texts_view(ls@);
    assert(lv =~= lines_spec(t@));
    let ghost dl = lv.map_values(|l: Seq<char>| doc_line(l));
    let mut out = String::new();
    let mut i: usize = 0;
    assert(dl.take(0) =~= Seq::<Seq<char>>::empty());
    while i < ls.len()
        invariant
            i <= ls@.len(),
            lv == texts_view(ls@),
            dl == lv.map_values(|l: Seq<char>| doc_line(l)),
            out@ == concat_texts(dl.take(i as int)),
        decreases ls@.len() - i,
    {
        assert(dl.take(i + 1).drop_last() =~= dl.take(i as int));
        let ghost was = out@;
        if ls[i].as_str().unicode_len() == 0 {
            push_str(&mut out, "\t///\n");
        } else {
            push_str(&mut out, "\t/// ");
            push_str(&mut out, ls[i].as_str());
            push_str(&mut out, "\n");
        }
        assert(out@ =~= was + dl[i as int]);
        i = i + 1;
    }
    assert(dl.take(ls@.len() as int) =~= dl);
    push_str(&mut out, "\t///\n");
    out
}

/// The path template with each parameter's braces replaced by `{}`.
fn template(path: &str, params: &Vec<String>) -> (r: String)
    ensures
        r@ == template_of(path@, texts_view(params@)),
{
    let ghost pv = texts_view(params@);
    let mut t = String::from_str(path);
    let mut i: usize = 0;
    assert(pv.take(0) =~= Seq::<Seq<char>>::empty());
    while i < params.len()
        invariant
            i <= params@.len(),
            pv == texts_view(params@),
            t@ == template_of(path@, pv.take(i as int)),
        decreases params@.len() - i,
    {
        assert(pv.take(i + 1).drop_last() =~= pv.take(i as int));
        assert(pv.take(i + 1).last() == params@[i as int]@);
        let mut pat = String::from_str("{");
        push_str(&mut pat, params[i].as_str());
        push_str(&mut pat, "}");
        proof {
            reveal_strlit("{");
        }
        t = replace(t.as_str(), pat.as_str(), "{}");
        i = i + 1;
    }
    assert(pv.take(params@.len() as int) =~= pv);
    t
}

/// The texts joined with `, ` after mapping each path parameter.
fn joined_params(op: &Operation, idents: &Vec<String>, checked: bool) -> (r: String)
    requires
        texts_view(idents@) == op@.params.map_values(|p: Seq<char>| ident_of(p)),
    ensures
        r@ == if checked {
            joined(op@.params.map_values(|p: Seq<char>| checked_text(op@, p)), ", "@)
        } else {
            joined(op@.params.map_values(|p: Seq<char>| filled_text(op@, p)), ", "@)
        },
{
    let ghost ov = op@;
    assert(texts_view(idents@).len() == idents@.len());
    let mut items: Vec<String> = Vec::new();
    let absorbed: Option<&str> = match &op.request {
        Request::Envelope(e) => match &e.absorbed {
            Some(a) => Some(a.as_str()),
            None => None,
        },
        _ => None,
    };
    let mut i: usize = 0;
    while i < op.params.len()
        invariant
            i <= op.params@.len(),
            ov == op@,
            texts_view(idents@) == ov.params.map_values(|p: Seq<char>| ident_of(p)),
            match absorbed { Some(a) => absorbed_of(ov) == Some(a@), None => absorbed_of(ov) is None },
            items@.len() == i,
            idents@.len() == op.params@.len(),
            forall|k: int| 0 <= k < i ==> (#[trigger] items@[k])@ == if checked {
                checked_text(ov, ov.params[k])
            } else {
                filled_text(ov, ov.params[k])
            },
        decreases op.params@.len() - i,
    {
        let p = op.params[i].as_str();
        assert(ov.params[i as int] == p@);
        assert(texts_view(idents@)[i as int] == idents@[i as int]@);
        assert(idents@[i as int]@ == ident_of(p@));
        let is_absorbed = match absorbed {
            Some(a) => str_eq(a, p),
            None => false,
        };
        let mut item = String::new();
        if checked {
            push_str(&mut item, "(");
            push_str(&mut item, quoted(p).as_str());
            push_str(&mut item, ", ");
            if is_absorbed {
                push_str(&mut item, "&request.");
            }
            push_str(&mut item, idents[i].as_str());
            push_str(&mut item, ")");
        } else {
            if is_absorbed {
                push_str(&mut item, "request.");
            }
            push_str(&mut item, idents[i].as_str());
        }
        items.push(item);
        i = i + 1;
    }
    let ghost want = if checked {
        ov.params.map_values(|p: Seq<char>| checked_text(ov, p))
    } else {
        ov.params.map_values(|p: Seq<char>| filled_text(ov, p))
    };
    assert(texts_view(items@) =~= want);
    join(items.as_slice(), ", ")
}

/// The method's arguments after `&self`.
fn args_of(op: &Operation, idents: &Vec<String>) -> (r: String)
    requires
        texts_view(idents@) == op@.params.map_values(|p: Seq<char>| ident_of(p)),
    ensures
        r@ == args_text(op@),
{
    let ghost ov = op@;
    assert(texts_view(idents@).len() == idents@.len());
    let ghost parts = ov.params.map_values(|p: Seq<char>| arg_text(ov, p));
    let env: Option<&Envelope> = match &op.request {
        Request::Envelope(e) => Some(e),
        _ => None,
    };
    let mut out = String::new();
    let mut i: usize = 0;
    assert(parts.take(0) =~= Seq::<Seq<char>>::empty());
    while i < op.params.len()
        invariant
            i <= op.params@.len(),
            ov == op@,
            parts == ov.params.map_values(|p: Seq<char>| arg_text(ov, p)),
            texts_view(idents@) == ov.params.map_values(|p: Seq<char>| ident_of(p)),
            match env { Some(e) => envelope_of(ov.request) == Some(e@), None => envelope_of(ov.request) is None },
            out@ == concat_texts(parts.take(i as int)),
            idents@.len() == op.params@.len(),
        decreases op.params@.len() - i,
    {
        assert(parts.take(i + 1).drop_last() =~= parts.take(i as int));
        let p = op.params[i].as_str();
        assert(ov.params[i as int] == p@);
        assert(texts_view(idents@)[i as int] == idents@[i as int]@);
        assert(idents@[i as int]@ == ident_of(p@));
        let ghost was = out@;
        let widened = match env {
            Some(e) => match &e.absorbed {
                Some(a) => str_eq(a.as_str(), p),
                None => false,
            },
            None => false,
        };
        push_str(&mut out, ", ");
        push_str(&mut out, idents[i].as_str());
        if widened {
            let e = match env {
                Some(e) => e,
                None => {
                    proof {
                        assert(false);
                    }
                    return out;
                },
            };
            push_str(&mut out, ": impl ::std::convert::Into<");
            push_str(&mut out, e.name.as_str());
            push_str(&mut out, ">");
        } else {
            push_str(&mut out, ": &str");
        }
        assert(out@ =~= was + parts[i as int]);
        i = i + 1;
    }
    assert(parts.take(op.params@.len() as int) =~= parts);
    match &op.request {
        Request::Json(ty) => {
            push_str(&mut out, ", body: &");
            push_str(&mut out, ty.as_str());
        },
        _ => {},
    }
    match env {
        Some(e) => {
            if e.absorbed.is_none() {
                push_str(&mut out, ", request: ");
                push_str(&mut out, e.name.as_str());
            }
        },
        None => {},
    }
    out
}

/// What the method hands the call plumbing as its body.
fn tail_of(op: &Operation) -> (r: String)
    ensures
        r@ == tail_text(op@),
{
    match &op.request {
        Request::Nothing => String::from_str("None::<&()>"),
        Request::Json(_) => String::from_str("Some(body)"),
        Request::Envelope(e) => match &e.body {
            None => String::from_str("None::<&()>"),
            Some(Body::Json(_)) => if e.absorbed.is_some() {
                String::from_str("request.body.as_ref()")
            } else {
                String::from_str("Some(&request.body)")
            },
            Some(b) => {
                let mut t = payload(b, e.absorbed.is_some());
                push_str(&mut t, ", ");
                push_str(&mut t, quoted(b.content_type()).as_str());
                t
            },
        },
    }
}

/// The call plumbing the method goes through.
fn call_of(op: &Operation) -> (r: &'static str)
    ensures
        r@ == call_text(op@),
{
    let payload = match &op.request {
        Request::Envelope(e) => match &e.body {
            Some(Body::Text) => true,
            Some(Body::Octets) => true,
            _ => false,
        },
        _ => false,
    };
    if payload {
        if op.response.is_some() { "call_payload_json" } else { "call_payload_empty" }
    } else {
        if op.response.is_some() { "call_json" } else { "call_empty" }
    }
}

/// The expression building the request path.
fn path_of(op: &Operation, idents: &Vec<String>, pairs: &String) -> (r: String)
    requires
        texts_view(idents@) == op@.params.map_values(|p: Seq<char>| ident_of(p)),
    ensures
        r@ == path_text(op@, pairs@),
{
    let built = if op.params.len() == 0 {
        quoted(op.path.as_str())
    } else {
        let t = template(op.path.as_str(), &op.params);
        let mut p = String::from_str("&format!(");
        push_str(&mut p, quoted(t.as_str()).as_str());
        push_str(&mut p, ", ");
        push_str(&mut p, joined_params(op, idents, false).as_str());
        push_str(&mut p, ")");
        p
    };
    match &op.request {
        Request::Envelope(e) => if e.query.len() > 0 {
            let mut q = String::from_str("&crate::query(");
            push_str(&mut q, built.as_str());
            push_str(&mut q, ", &[");
            push_str(&mut q, pairs.as_str());
            push_str(&mut q, "])");
            q
        } else {
            built
        },
        _ => built,
    }
}

/// The method's doc comment and signature, up to its opening brace.
fn head_of(op: &Operation, collide: bool, idents: &Vec<String>) -> (r: String)
    requires
        texts_view(idents@) == op@.params.map_values(|p: Seq<char>| ident_of(p)),
    ensures
        r@ == head_text(op@, collide),
{
    let mut out = doc_lines(&op.summary);
    push_str(&mut out, doc_lines(&op.description).as_str());
    push_str(&mut out, "\t/// `");
    push_str(&mut out, to_uppercase(op.verb.as_str()).as_str());
    push_str(&mut out, " ");
    push_str(&mut out, op.path.as_str());
    push_str(&mut out, "`\n");
    push_str(&mut out, "\tpub async fn ");
    if collide {
        push_str(&mut out, op.verb.as_str());
        push_str(&mut out, "_");
    }
    push_str(&mut out, op.name.as_str());
    push_str(&mut out, "(&self");
    push_str(&mut out, args_of(op, idents).as_str());
    push_str(&mut out, ") -> ");
    match &op.response {
        Some(ty) => {
            push_str(&mut out, "crate::Result<");
            push_str(&mut out, ty.as_str());
            push_str(&mut out, ">");
        },
        None => push_str(&mut out, "crate::Result<()>"),
    }
    push_str(&mut out, " {\n");
    out
}

/// The line making the call, and the method's closing brace.
fn call_line(op: &Operation, path: &String) -> (r: String)
    ensures
        r@ == call_line_text(op@, path@),
{
    let mut out = String::from_str("\t\tself.");
    push_str(&mut out, call_of(op));
    push_str(&mut out, "(::http::Method::");
    push_str(&mut out, to_uppercase(op.verb.as_str()).as_str());
    push_str(&mut out, ", ");
    push_str(&mut out, path.as_str());
    push_str(&mut out, ", ");
    push_str(&mut out, tail_of(op).as_str());
    push_str(&mut out, ").await\n\t}\n");
    out
}

/// The line turning what a grandfathered method took into its envelope.
fn setup_of(op: &Operation, absorbed_ident: &Option<String>) -> (r: String)
    requires
        absorbed_ident is Some ==> envelope_of(op@.request) is Some,
    ensures
        r@ == setup_text(op@, match absorbed_ident { Some(i) => Some(i@), None => None }),
{
    match (absorbed_ident, &op.request) {
        (Some(i), Request::Envelope(e)) => {
            let mut out = String::from_str("\t\tlet request: ");
            push_str(&mut out, e.name.as_str());
            push_str(&mut out, " = ");
            push_str(&mut out, i.as_str());
            push_str(&mut out, ".into();\n");
            out
        },
        _ => String::new(),
    }
}

/// The line checking the path parameters.
fn segments_of(op: &Operation, idents: &Vec<String>) -> (r: String)
    requires
        texts_view(idents@) == op@.params.map_values(|p: Seq<char>| ident_of(p)),
    ensures
        r@ == segments_text(op@),
{
    if op.params.len() > 0 {
        let mut out = String::from_str("\t\tcrate::segments(");
        push_str(&mut out, quoted(op.path.as_str()).as_str());
        push_str(&mut out, ", &[");
        push_str(&mut out, joined_params(op, idents, true).as_str());
        push_str(&mut out, "])?;\n");
        out
    } else {
        String::new()
    }
}

/// The method an operation becomes.
pub fn method_text(op: &Operation, collide: bool) -> (r: Result<String, String>)
    ensures
        text_result(r) == method_text_spec(op@, collide),
{
    let ghost ov = op@;
    let idents = match param_idents(&op.params) {
        Ok(v) => v,
        Err(e) => {
            return Err(e);
        },
    };
    let env: Option<&Envelope> = match &op.request {
        Request::Envelope(e) => Some(e),
        _ => None,
    };
    let pairs = match env {
        Some(e) => if e.query.len() > 0 {
            match query_pairs(e.query.as_slice()) {
                Ok(p) => p,
                Err(x) => {
                    return Err(x);
                },
            }
        } else {
            String::new()
        },
        None => String::new(),
    };
    let absorbed_ident: Option<String> = match env {
        Some(e) => match &e.absorbed {
            Some(a) => match escape_ident(a.as_str()) {
                Ok(i) => Some(i),
                Err(x) => {
                    return Err(x);
                },
            },
            None => None,
        },
        None => None,
    };
    let path = path_of(op, &idents, &pairs);
    let mut out = head_of(op, collide, &idents);
    push_str(&mut out, setup_of(op, &absorbed_ident).as_str());
    push_str(&mut out, segments_of(op, &idents).as_str());
    push_str(&mut out, call_line(op, &path).as_str());
    Ok(out)
}

/// The envelopes the sorted operations take, each emitted as its struct, or
/// the first one's error.
pub open spec fn envelopes_text(ops: Seq<OperationV>) -> Result<Seq<char>, Seq<char>>
    decreases ops.len(),
{
    if ops.len() == 0 {
        Ok(Seq::empty())
    } else {
        match envelopes_text(ops.drop_last()) {
            Err(e) => Err(e),
            Ok(done) => match envelope_of(ops.last().request) {
                None => Ok(done),
                Some(env) => match envelope_type_spec(env, ops.last().verb, ops.last().path) {
                    Err(e) => Err(e),
                    Ok(t) => Ok(done + t),
                },
            },
        }
    }
}

/// The methods the sorted operations become, or the first one's error; a
/// name more than one operation has is prefixed with the verb.
pub open spec fn methods_fold(ops: Seq<OperationV>, all: Seq<OperationV>) -> Result<Seq<char>, Seq<char>>
    decreases ops.len(),
{
    if ops.len() == 0 {
        Ok(Seq::empty())
    } else {
        match methods_fold(ops.drop_last(), all) {
            Err(e) => Err(e),
            Ok(done) => match method_text_spec(ops.last(), named_count(all, ops.last().name) > 1) {
                Err(e) => Err(e),
                Ok(t) => Ok(done + t),
            },
        }
    }
}

/// What opens the client's block of methods.
pub open spec fn methods_header() -> Seq<char> {
    "/// One method per operation in canopy's OpenAPI document.\nimpl<T: crate::CanopyTransport> crate::CanopyClient<T> {\n"@
}

/// The client's methods for a document, preceded by the envelopes they take,
/// or why the generator refuses the document.
pub open spec fn methods_spec(doc: JsonV, schema_names: Seq<Seq<char>>) -> Result<Seq<char>, Seq<char>> {
    match operations_spec(doc) {
        Err(e) => Err(e),
        Ok(ops) => match ledger_error(ops) {
            Some(e) => Err(e),
            None => match envelope_error(ops, schema_names) {
                Some(e) => Err(e),
                None => {
                    let sorted = sort_ops(ops);
                    match envelopes_text(sorted) {
                        Err(e) => Err(e),
                        Ok(a) => match methods_fold(sorted, ops) {
                            Err(e) => Err(e),
                            Ok(b) => Ok(a + methods_header() + b + "}\n"@),
                        },
                    }
                },
            },
        },
    }
}

/// Whether every envelope the document's operations take can be emitted: a
/// grandfathered method's published signature sent no required query
/// parameter, so its envelope converts from the one value that signature
/// took.
pub open spec fn renderable(doc: JsonV) -> bool {
    operations_spec(doc) matches Ok(ops) ==> all_render(ops)
}

/// Whether every envelope these operations take can be emitted.
pub open spec fn all_render(ops: Seq<OperationV>) -> bool {
    forall|k: int| 0 <= k < ops.len() ==> (envelope_of((#[trigger] ops[k]).request) matches Some(e) ==> renders(e))
}

/// Whether the envelopes can be emitted where the methods get as far as
/// emitting them: a document whose operations do not read, whose ledger is
/// out of step, or whose envelopes clash with a schema's name is refused
/// before any envelope is emitted, whatever its envelopes are.
pub open spec fn renderable_once_checked(doc: JsonV, schema_names: Seq<Seq<char>>) -> bool {
    match operations_spec(doc) {
        Err(_) => true,
        Ok(ops) => (ledger_error(ops) is None && envelope_error(ops, schema_names) is None) ==> all_render(ops),
    }
}

/// What sorting yields comes from what was sorted.
proof fn lemma_sorted_members(s: Seq<OperationV>)
    ensures
        sort_ops(s).len() == s.len(),
        forall|k: int| 0 <= k < sort_ops(s).len() ==> s.contains(#[trigger] sort_ops(s)[k]),
    decreases s.len(),
{
    if s.len() > 0 {
        lemma_sorted_members(s.drop_last());
        lemma_insert_members(sort_ops(s.drop_last()), s.last());
        let t = sort_ops(s.drop_last());
        assert forall|k: int| 0 <= k < sort_ops(s).len() implies s.contains(#[trigger] sort_ops(s)[k]) by {
            let x = sort_ops(s)[k];
            if x == s.last() {
                assert(s[s.len() - 1] == x);
            } else {
                let j = choose|j: int| 0 <= j < t.len() && t[j] == x;
                assert(s.drop_last().contains(t[j]));
                let m = choose|m: int| 0 <= m < s.drop_last().len() && s.drop_last()[m] == t[j];
                assert(s[m] == x);
            }
        }
    }
}

/// What inserting yields is what was there and what was inserted.
proof fn lemma_insert_members(s: Seq<OperationV>, x: OperationV)
    ensures
        insert_op(s, x).len() == s.len() + 1,
        forall|k: int| 0 <= k < insert_op(s, x).len() ==> (#[trigger] insert_op(s, x)[k] == x || s.contains(insert_op(s, x)[k])),
    decreases s.len(),
{
    if s.len() > 0 && op_before(x, s.last()) {
        lemma_insert_members(s.drop_last(), x);
        let t = insert_op(s.drop_last(), x);
        assert forall|k: int| 0 <= k < insert_op(s, x).len() implies (#[trigger] insert_op(s, x)[k] == x || s.contains(insert_op(s, x)[k])) by {
            if k < t.len() {
                assert(insert_op(s, x)[k] == t[k]);
                if t[k] != x {
                    let m = choose|m: int| 0 <= m < s.drop_last().len() && s.drop_last()[m] == t[k];
                    assert(s[m] == t[k]);
                }
            } else {
                assert(insert_op(s, x)[k] == s[s.len() - 1]);
            }
        }
    } else if s.len() > 0 {
        assert forall|k: int| 0 <= k < insert_op(s, x).len() implies (#[trigger] insert_op(s, x)[k] == x || s.contains(insert_op(s, x)[k])) by {
            if k < s.len() {
                assert(insert_op(s, x)[k] == s[k]);
            }
        }
    }
}

/// A name some operation has is counted.
proof fn lemma_named_present(ops: Seq<OperationV>, name: Seq<char>)
    requires
        named_count(ops, name) > 0,
    ensures
        exists|k: int| 0 <= k < ops.len() && (#[trigger] ops[k]).name == name,
    decreases ops.len(),
{
    if ops.last().name != name {
        lemma_named_present(ops.drop_last(), name);
        let k = choose|k: int| 0 <= k < ops.drop_last().len() && (#[trigger] ops.drop_last()[k]).name == name;
        assert(ops[k].name == name);
    } else {
        assert(ops[ops.len() - 1].name == name);
    }
}

/// The names more than one operation has.
fn colliding_names(ops: &Vec<Operation>) -> (r: Vec<String>)
    ensures
        forall|n: Seq<char>| texts_view(r@).contains(n) <==> named_count(ops_view(ops@), n) > 1,
{
    let ghost ov = ops_view(ops@);
    let mut out: Vec<String> = Vec::new();
    let mut i: usize = 0;
    while i < ops.len()
        invariant
            i <= ops@.len(),
            ov == ops_view(ops@),
            forall|n: Seq<char>| texts_view(out@).contains(n) ==> named_count(ov, n) > 1,
            forall|k: int| 0 <= k < i ==> (named_count(ov, #[trigger] ov[k].name) > 1 ==> texts_view(out@).contains(ov[k].name)),
        decreases ops@.len() - i,
    {
        if collides(ops, ops[i].name.as_str()) {
            let ghost was = texts_view(out@);
            let ghost nv = ops@[i as int].name@;
            out.push(ops[i].name.clone());
            assert(texts_view(out@) =~= was.push(nv));
            assert(texts_view(out@)[was.len() as int] == nv);
            assert forall|n: Seq<char>| texts_view(out@).contains(n) implies named_count(ov, n) > 1 by {
                let j = choose|j: int| 0 <= j < texts_view(out@).len() && texts_view(out@)[j] == n;
                if j < was.len() {
                    assert(was[j] == n);
                    assert(was.contains(n));
                }
            }
            assert forall|k: int| 0 <= k < i implies (named_count(ov, #[trigger] ov[k].name) > 1 ==> texts_view(out@).contains(ov[k].name)) by {
                if named_count(ov, ov[k].name) > 1 {
                    let j = choose|j: int| 0 <= j < was.len() && was[j] == ov[k].name;
                    assert(texts_view(out@)[j] == ov[k].name);
                }
            }
        }
        i = i + 1;
    }
    assert forall|n: Seq<char>| named_count(ov, n) > 1 implies texts_view(out@).contains(n) by {
        lemma_named_present(ov, n);
        let k = choose|k: int| 0 <= k < ov.len() && (#[trigger] ov[k]).name == n;
        assert(named_count(ov, ov[k].name) > 1);
    }
    out
}

/// Once a prefix fails, the whole list fails the same way.
proof fn lemma_envelopes_stay_failed(ops: Seq<OperationV>, n: int, e: Seq<char>)
    requires
        0 <= n <= ops.len(),
        envelopes_text(ops.take(n)) == Err::<Seq<char>, Seq<char>>(e),
    ensures
        envelopes_text(ops) == Err::<Seq<char>, Seq<char>>(e),
    decreases ops.len() - n,
{
    if n < ops.len() {
        assert(ops.take(n + 1).drop_last() =~= ops.take(n));
        lemma_envelopes_stay_failed(ops, n + 1, e);
    } else {
        assert(ops.take(n) =~= ops);
    }
}

/// Once a prefix fails, the whole list fails the same way.
proof fn lemma_methods_stay_failed(ops: Seq<OperationV>, all: Seq<OperationV>, n: int, e: Seq<char>)
    requires
        0 <= n <= ops.len(),
        methods_fold(ops.take(n), all) == Err::<Seq<char>, Seq<char>>(e),
    ensures
        methods_fold(ops, all) == Err::<Seq<char>, Seq<char>>(e),
    decreases ops.len() - n,
{
    if n < ops.len() {
        assert(ops.take(n + 1).drop_last() =~= ops.take(n));
        lemma_methods_stay_failed(ops, all, n + 1, e);
    } else {
        assert(ops.take(n) =~= ops);
    }
}

/// Whether an envelope's grandfathered method sends nothing its published
/// signature could not.
fn envelope_renders(e: &Envelope) -> (r: bool)
    ensures
        r == renders(e@),
{
    if e.absorbed.is_none() {
        return true;
    }
    let mut k: usize = 0;
    while k < e.query.len()
        invariant
            k <= e.query@.len(),
            e.absorbed is Some,
            forall|m: int| 0 <= m < k ==> !(#[trigger] params_view(e.query@)[m]).required,
        decreases e.query@.len() - k,
    {
        if e.query[k].required {
            assert(params_view(e.query@)[k as int].required);
            assert(e@.query == params_view(e.query@));
            assert(e@.absorbed is Some);
            assert(!renders(e@));
            return false;
        }
        k = k + 1;
    }
    true
}

/// Whether every grandfathered envelope in the document carries nothing its
/// published signature could not, which is what the methods are rendered on.
pub fn is_renderable(spec: &Json) -> (r: bool)
    ensures
        r == renderable(spec@),
{
    let ops = match operations(spec) {
        Ok(o) => o,
        Err(_) => {
            return true;
        },
    };
    let ghost all = ops_view(ops@);
    let mut i: usize = 0;
    while i < ops.len()
        invariant
            i <= ops@.len(),
            all == ops_view(ops@),
            operations_spec(spec@) == Ok::<Seq<OperationV>, Seq<char>>(all),
            forall|k: int| 0 <= k < i ==> (envelope_of((#[trigger] all[k]).request) matches Some(e) ==> renders(e)),
        decreases ops@.len() - i,
    {
        if let Request::Envelope(env) = &ops[i].request {
            if !envelope_renders(env) {
                assert(envelope_of(all[i as int].request) == Some(env@));
                return false;
            }
        }
        i = i + 1;
    }
    true
}


/// Emit one method per operation on `CanopyClient`, routed through its shared
/// call plumbing, preceded by the request envelopes those methods take. Names
/// come from the path; where a path is served by more than one verb the verb
/// is prefixed to tell them apart.
pub fn methods(spec: &Json, schema_names: &Vec<String>) -> (r: Result<String, String>)
    requires
        renderable_once_checked(spec@, texts_view(schema_names@)),
    ensures
        text_result(r) == methods_spec(spec@, texts_view(schema_names@)),
{
    let ops = match operations(spec) {
        Ok(o) => o,
        Err(e) => {
            return Err(e);
        },
    };
    let ghost all = ops_view(ops@);
    if let Some(e) = check_ledger(&ops) {
        return Err(e);
    }
    if let Some(e) = check_envelopes(&ops, schema_names) {
        return Err(e);
    }
    let collide = colliding_names(&ops);
    let sorted = sorted_operations(ops);
    let ghost sv = ops_view(sorted@);
    proof {
        lemma_sorted_members(all);
    }
    let mut envelopes = String::new();
    let mut i: usize = 0;
    assert(sv.take(0) =~= Seq::<OperationV>::empty());
    while i < sorted.len()
        invariant
            i <= sorted@.len(),
            sv == ops_view(sorted@),
            sv == sort_ops(all),
            all == operations_spec(spec@)->Ok_0,
            all_render(all),
            operations_spec(spec@) is Ok,
            ledger_error(all) is None,
            envelope_error(all, texts_view(schema_names@)) is None,
            forall|k: int| 0 <= k < sv.len() ==> all.contains(#[trigger] sv[k]),
            envelopes_text(sv.take(i as int)) == Ok::<Seq<char>, Seq<char>>(envelopes@),
        decreases sorted@.len() - i,
    {
        assert(sv.take(i + 1).drop_last() =~= sv.take(i as int));
        assert(sv.take(i + 1).last() == sorted@[i as int]@);
        let op = &sorted[i];
        if let Request::Envelope(env) = &op.request {
            proof {
                assert(all.contains(sv[i as int]));
                let m = choose|m: int| 0 <= m < all.len() && all[m] == sv[i as int];
                assert(envelope_of(all[m].request) == Some(env@));
            }
            match envelope_type(env, op.verb.as_str(), op.path.as_str()) {
                Ok(t) => push_str(&mut envelopes, t.as_str()),
                Err(e) => {
                    proof {
                        lemma_envelopes_stay_failed(sv, i + 1, e@);
                    }
                    return Err(e);
                },
            }
        }
        i = i + 1;
    }
    assert(sv.take(sorted@.len() as int) =~= sv);
    let mut out = envelopes;
    push_str(
        &mut out,
        "/// One method per operation in canopy's OpenAPI document.\nimpl<T: crate::CanopyTransport> crate::CanopyClient<T> {\n",
    );
    let ghost before_methods = out@;
    let mut body = String::new();
    let mut j: usize = 0;
    assert(sv.take(0) =~= Seq::<OperationV>::empty());
    while j < sorted.len()
        invariant
            j <= sorted@.len(),
            sv == ops_view(sorted@),
            sv == sort_ops(all),
            all == operations_spec(spec@)->Ok_0,
            operations_spec(spec@) is Ok,
            ledger_error(all) is None,
            envelope_error(all, texts_view(schema_names@)) is None,
            envelopes_text(sv) is Ok,
            forall|n: Seq<char>| texts_view(collide@).contains(n) <==> named_count(all, n) > 1,
            methods_fold(sv.take(j as int), all) == Ok::<Seq<char>, Seq<char>>(body@),
        decreases sorted@.len() - j,
    {
        assert(sv.take(j + 1).drop_last() =~= sv.take(j as int));
        assert(sv.take(j + 1).last() == sorted@[j as int]@);
        let op = &sorted[j];
        let c = contains_text(&collide, op.name.as_str());
        match method_text(op, c) {
            Ok(t) => push_str(&mut body, t.as_str()),
            Err(e) => {
                proof {
                    lemma_methods_stay_failed(sv, all, j + 1, e@);
                }
                return Err(e);
            },
        }
        j = j + 1;
    }
    assert(sv.take(sorted@.len() as int) =~= sv);
    push_str(&mut out, body.as_str());
    push_str(&mut out, "}\n");
    proof {
        reveal_strlit("/// One method per operation in canopy's OpenAPI document.\nimpl<T: crate::CanopyTransport> crate::CanopyClient<T> {\n");
    }
    assert(before_methods =~= envelopes_text(sv)->Ok_0 + methods_header());
    Ok(out)
}

/// The methods where they can be rendered, the same as `methods` gives them;
/// `None` for a document whose operations read, whose ledger and envelope
/// names are in order, and which still carries an envelope that cannot be
/// emitted, where no methods can be rendered at all.
pub fn methods_checked(spec: &Json, schema_names: &Vec<String>) -> (r: Option<Result<String, String>>)
    ensures
        r is None <==> !renderable_once_checked(spec@, texts_view(schema_names@)),
        r matches Some(m) ==> text_result(m) == methods_spec(spec@, texts_view(schema_names@)),
{
    if is_renderable(spec) {
        return Some(methods(spec, schema_names));
    }
    let ops = match operations(spec) {
        Ok(o) => o,
        Err(_) => {
            return Some(methods(spec, schema_names));
        },
    };
    if check_ledger(&ops).is_some() || check_envelopes(&ops, schema_names).is_some() {
        return Some(methods(spec, schema_names));
    }
    None
}

} // verus!
