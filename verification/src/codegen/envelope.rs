//! The request envelope: the single argument an operation's method takes
//! where it carries a body or query parameters.
//!
//! Query parameters live here rather than as arguments of their own, so that
//! adding one later adds an optional field to a `#[non_exhaustive]` struct
//! with a builder, which is compatible, rather than changing a method's
//! arity, which is not.

use vstd::prelude::*;
use crate::codegen::names::{escape_ident, escape_spec, pascal, pascal_spec, to_uppercase, upper_text};
use crate::codegen::operation::{field_type_spec, jobject, opt_body, text_result, Body, BodyV};
use crate::json::{elements_view, jarray, jbool, jfield, jstr, written, written_text, Json, JsonV};
use crate::text::{debug_quoted, join, joined, push_str, quoted, str_eq};

verus! {

/// A query parameter, as the envelope field it becomes.
#[derive(Debug)]
pub struct QueryParam {
    pub name: String,
    pub required: bool,
    pub ty: String,
    /// Whether the builder takes the field by conversion, which a
    /// string-typed parameter does and a parsed one does not.
    pub into: bool,
}

/// A query parameter as what it holds.
pub struct QueryParamV {
    pub name: Seq<char>,
    pub required: bool,
    pub ty: Seq<char>,
    pub into: bool,
}

impl View for QueryParam {
    type V = QueryParamV;

    open spec fn view(&self) -> QueryParamV {
        QueryParamV { name: self.name@, required: self.required, ty: self.ty@, into: self.into }
    }
}

/// Query parameters as what they hold.
pub open spec fn params_view(v: Seq<QueryParam>) -> Seq<QueryParamV> {
    v.map_values(|p: QueryParam| p@)
}

/// The type names a `type` array gives, leaving out `null`.
pub open spec fn named_types(types: Seq<JsonV>) -> Seq<Seq<char>>
    decreases types.len(),
{
    if types.len() == 0 {
        Seq::empty()
    } else {
        let rest = named_types(types.drop_last());
        match types.last() {
            JsonV::Str(t) => if t != "null"@ { rest.push(t) } else { rest },
            _ => rest,
        }
    }
}

/// The Rust type of a query parameter, and whether the builder takes it by
/// conversion; nothing for a schema this generator cannot type.
///
/// A parameter is a string on the wire, but it is typed here as the document
/// describes it, so a caller hands over the thing itself rather than its
/// spelling. An optional parameter may be rendered as a union with null.
pub open spec fn query_type_spec(schema: JsonV) -> Option<(Seq<char>, bool)> {
    let format = jstr(jfield(schema, "format"@));
    let ty = match jfield(schema, "type"@) {
        Some(JsonV::Str(t)) => Some(t),
        Some(JsonV::Array(types)) => if named_types(types).len() == 1 {
            Some(named_types(types)[0])
        } else {
            None
        },
        _ => None,
    };
    match ty {
        None => None,
        Some(t) => if t == "string"@ && format == Some("uuid"@) {
            Some(("::uuid::Uuid"@, false))
        } else if t == "string"@ {
            Some(("::std::string::String"@, true))
        } else if t == "integer"@ {
            Some(("i64"@, false))
        } else if t == "boolean"@ {
            Some(("bool"@, false))
        } else {
            None
        },
    }
}

/// The type names a `type` array gives, leaving out `null`.
fn type_names(types: &Vec<Json>) -> (r: Vec<&str>)
    ensures
        r@.map_values(|t: &str| t@) == named_types(elements_view(types@)),
{
    let ghost v = elements_view(types@);
    let mut out: Vec<&str> = Vec::new();
    let mut i: usize = 0;
    while i < types.len()
        invariant
            i <= types@.len(),
            v == elements_view(types@),
            out@.map_values(|t: &str| t@) == named_types(v.take(i as int)),
        decreases types@.len() - i,
    {
        assert(v.take(i + 1).drop_last() =~= v.take(i as int));
        assert(v.take(i + 1).last() == types@[i as int]@);
        match types[i].as_str() {
            Some(t) => {
                if !str_eq(t, "null") {
                    out.push(t);
                    assert(out@.map_values(|t: &str| t@) =~= named_types(v.take(i as int)).push(t@));
                }
            },
            None => {},
        }
        i = i + 1;
    }
    assert(v.take(types@.len() as int) =~= v);
    out
}

/// The Rust type of a query parameter.
pub fn query_type(schema: &Json) -> (r: Option<(String, bool)>)
    ensures
        match r {
            Some((t, into)) => query_type_spec(schema@) == Some((t@, into)),
            None => query_type_spec(schema@) is None,
        },
{
    let format = match schema.get("format") {
        Some(f) => f.as_str(),
        None => None,
    };
    let ty: &str = match schema.get("type") {
        Some(Json::String(t)) => t.as_str(),
        Some(Json::Array(types)) => {
            proof {
                crate::json::lemma_array_view(*types);
            }
            let named = type_names(types);
            if named.len() != 1 {
                return None;
            }
            named[0]
        },
        _ => {
            return None;
        },
    };
    let uuid = match format {
        Some(f) => str_eq(f, "uuid"),
        None => false,
    };
    if str_eq(ty, "string") && uuid {
        Some((String::from_str("::uuid::Uuid"), false))
    } else if str_eq(ty, "string") {
        Some((String::from_str("::std::string::String"), true))
    } else if str_eq(ty, "integer") {
        Some((String::from_str("i64"), false))
    } else if str_eq(ty, "boolean") {
        Some((String::from_str("bool"), false))
    } else {
        None
    }
}

/// What one entry of a parameter list adds: a query parameter, nothing for
/// a path parameter, or why the generator cannot place it.
pub open spec fn param_step(param: JsonV, path: Seq<char>, verb: Seq<char>) -> Result<Option<QueryParamV>, Seq<char>> {
    let v = upper_text(verb);
    if jfield(param, "$ref"@) is Some {
        Err(
            "a parameter of "@ + v + " "@ + path
                + " is a $ref, which this generator does not resolve: declare it inline, or teach this generator to follow it"@,
        )
    } else {
        match jstr(jfield(param, "name"@)) {
            None => Err("a parameter of "@ + v + " "@ + path + " has no name"@),
            Some(name) => {
                let carried = jstr(jfield(param, "in"@));
                if carried == Some("path"@) {
                    // Taken from the path template, which is where the method
                    // gets its own arguments from.
                    Ok(None)
                } else if carried != Some("query"@) {
                    Err(
                        "the parameter "@ + name + " of "@ + v + " "@ + path + " is carried in "@
                            + match carried { Some(c) => c, None => "no stated place"@ }
                            + ", which this generator cannot send: a parameter is not served by being left off the method"@,
                    )
                } else {
                    match jfield(param, "schema"@) {
                        None => Err("the query parameter "@ + name + " of "@ + v + " "@ + path + " declares no schema"@),
                        Some(schema) => match query_type_spec(schema) {
                            None => Err(
                                "the query parameter "@ + name + " of "@ + v + " "@ + path
                                    + " cannot be typed, and a parameter is not served by being left off: declare it as a string, an integer, or a boolean, or teach this generator the shape.\nschema: "@
                                    + written(schema),
                            ),
                            Some((ty, into)) => Ok(
                                Some(
                                    QueryParamV {
                                        name,
                                        required: match jbool(jfield(param, "required"@)) {
                                            Some(b) => b,
                                            None => false,
                                        },
                                        ty,
                                        into,
                                    },
                                ),
                            ),
                        },
                    }
                }
            },
        }
    }
}

/// Where a parameter of the name is already held, if one is.
pub open spec fn held_at(held: Seq<QueryParamV>, name: Seq<char>) -> Option<int>
    decreases held.len(),
{
    if held.len() == 0 {
        None
    } else if held[0].name == name {
        Some(0)
    } else {
        match held_at(held.drop_first(), name) {
            Some(k) => Some(k + 1),
            None => None,
        }
    }
}

/// The parameters held after placing `p`: it replaces the one of its name,
/// or follows the others.
pub open spec fn placed(held: Seq<QueryParamV>, p: QueryParamV) -> Seq<QueryParamV> {
    match held_at(held, p.name) {
        Some(k) => held.update(k, p),
        None => held.push(p),
    }
}

/// The query parameters a list of parameter entries gives, in order, or why
/// one cannot be placed.
pub open spec fn params_fold(ps: Seq<JsonV>, path: Seq<char>, verb: Seq<char>) -> Result<Seq<QueryParamV>, Seq<char>>
    decreases ps.len(),
{
    if ps.len() == 0 {
        Ok(Seq::empty())
    } else {
        match params_fold(ps.drop_last(), path, verb) {
            Err(e) => Err(e),
            Ok(held) => match param_step(ps.last(), path, verb) {
                Err(e) => Err(e),
                Ok(None) => Ok(held),
                Ok(Some(p)) => Ok(placed(held, p)),
            },
        }
    }
}

/// The parameter entries an operation sees: its path item's, then its own.
pub open spec fn param_entries(op: JsonV, item: JsonV) -> Seq<JsonV> {
    (match jarray(jfield(item, "parameters"@)) {
        Some(v) => v,
        None => Seq::empty(),
    }) + (match jarray(jfield(op, "parameters"@)) {
        Some(v) => v,
        None => Seq::empty(),
    })
}

/// The query parameters an operation takes, in the order the document lists
/// them, or why one cannot be placed.
///
/// A path item's own parameters apply to every operation under it, and an
/// operation's entry of the same name replaces the inherited one.
pub open spec fn query_params_spec(op: JsonV, item: JsonV, path: Seq<char>, verb: Seq<char>) -> Result<Seq<QueryParamV>, Seq<char>> {
    params_fold(param_entries(op, item), path, verb)
}

/// The start of what the generator says of an operation.
fn said_of(prefix: &str, verb: &str, path: &str) -> (r: String)
    ensures
        r@ == prefix@ + upper_text(verb@) + " "@ + path@,
{
    let mut e = String::from_str(prefix);
    push_str(&mut e, to_uppercase(verb).as_str());
    push_str(&mut e, " ");
    push_str(&mut e, path);
    e
}

/// What one entry of a parameter list adds.
fn param_of(param: &Json, path: &str, verb: &str) -> (r: Result<Option<QueryParam>, String>)
    ensures
        match r {
            Ok(Some(p)) => param_step(param@, path@, verb@) == Ok::<Option<QueryParamV>, Seq<char>>(Some(p@)),
            Ok(None) => param_step(param@, path@, verb@) == Ok::<Option<QueryParamV>, Seq<char>>(None),
            Err(e) => param_step(param@, path@, verb@) == Err::<Option<QueryParamV>, Seq<char>>(e@),
        },
{
    if param.get("$ref").is_some() {
        let mut e = said_of("a parameter of ", verb, path);
        push_str(
            &mut e,
            " is a $ref, which this generator does not resolve: declare it inline, or teach this generator to follow it",
        );
        return Err(e);
    }
    let name = match param.get("name") {
        Some(n) => n.as_str(),
        None => None,
    };
    let name = match name {
        Some(n) => n,
        None => {
            let mut e = said_of("a parameter of ", verb, path);
            push_str(&mut e, " has no name");
            return Err(e);
        },
    };
    let carried = match param.get("in") {
        Some(c) => c.as_str(),
        None => None,
    };
    let is_path = match carried {
        Some(c) => str_eq(c, "path"),
        None => false,
    };
    if is_path {
        return Ok(None);
    }
    let is_query = match carried {
        Some(c) => str_eq(c, "query"),
        None => false,
    };
    if !is_query {
        let mut e = String::from_str("the parameter ");
        push_str(&mut e, name);
        push_str(&mut e, " of ");
        push_str(&mut e, to_uppercase(verb).as_str());
        push_str(&mut e, " ");
        push_str(&mut e, path);
        push_str(&mut e, " is carried in ");
        match carried {
            Some(c) => push_str(&mut e, c),
            None => push_str(&mut e, "no stated place"),
        }
        push_str(&mut e, ", which this generator cannot send: a parameter is not served by being left off the method");
        return Err(e);
    }
    let schema = match param.get("schema") {
        Some(s) => s,
        None => {
            let mut e = String::from_str("the query parameter ");
            push_str(&mut e, name);
            push_str(&mut e, " of ");
            push_str(&mut e, to_uppercase(verb).as_str());
            push_str(&mut e, " ");
            push_str(&mut e, path);
            push_str(&mut e, " declares no schema");
            return Err(e);
        },
    };
    let (ty, into) = match query_type(schema) {
        Some(t) => t,
        None => {
            let mut e = String::from_str("the query parameter ");
            push_str(&mut e, name);
            push_str(&mut e, " of ");
            push_str(&mut e, to_uppercase(verb).as_str());
            push_str(&mut e, " ");
            push_str(&mut e, path);
            push_str(
                &mut e,
                " cannot be typed, and a parameter is not served by being left off: declare it as a string, an integer, or a boolean, or teach this generator the shape.\nschema: ",
            );
            push_str(&mut e, written_text(schema).as_str());
            return Err(e);
        },
    };
    let required = match param.get("required") {
        Some(r) => match r.as_bool() {
            Some(b) => b,
            None => false,
        },
        None => false,
    };
    Ok(Some(QueryParam { name: String::from_str(name), required, ty, into }))
}

/// Place a parameter among those held.
fn place(held: &mut Vec<QueryParam>, p: QueryParam)
    ensures
        params_view(final(held)@) == placed(params_view(old(held)@), p@),
{
    let ghost hv = params_view(held@);
    let mut k: usize = 0;
    assert(hv.skip(0) =~= hv);
    while k < held.len()
        invariant
            k <= held@.len(),
            hv == params_view(held@),
            held@ == old(held)@,
            held_at(hv, p@.name) == match held_at(hv.skip(k as int), p@.name) {
                Some(j) => Some(j + k),
                None => None,
            },
        decreases held@.len() - k,
    {
        assert(hv.skip(k as int).drop_first() =~= hv.skip(k + 1));
        assert(hv.skip(k as int)[0] == hv[k as int]);
        if str_eq(held[k].name.as_str(), p.name.as_str()) {
            assert(held_at(hv.skip(k as int), p@.name) == Some(0int));
            let ghost pv = p@;
            held.set(k, p);
            assert(params_view(held@) =~= hv.update(k as int, pv));
            assert(held_at(hv, pv.name) == Some(k as int));
            assert(placed(hv, pv) == hv.update(k as int, pv));
            return;
        }
        k = k + 1;
    }
    assert(hv.skip(k as int) =~= Seq::<QueryParamV>::empty());
    let ghost pv = p@;
    held.push(p);
    assert(params_view(held@) =~= hv.push(pv));
}

/// Append references to each element.
fn push_all<'a>(entries: &mut Vec<&'a Json>, v: &'a Vec<Json>)
    ensures
        final(entries)@.map_values(|j: &Json| j@) == old(entries)@.map_values(|j: &Json| j@) + elements_view(v@),
{
    let ghost before = entries@;
    let mut i: usize = 0;
    while i < v.len()
        invariant
            i <= v@.len(),
            entries@.len() == before.len() + i,
            forall|k: int| 0 <= k < before.len() ==> entries@[k] == before[k],
            forall|k: int| 0 <= k < i ==> (#[trigger] entries@[before.len() + k])@ == v@[k]@,
        decreases v@.len() - i,
    {
        entries.push(&v[i]);
        i = i + 1;
    }
    assert(entries@.map_values(|j: &Json| j@) =~= before.map_values(|j: &Json| j@) + elements_view(v@)) by {
        assert forall|k: int| before.len() <= k < entries@.len() implies entries@[k]@ == elements_view(v@)[k - before.len()] by {
            assert(entries@[before.len() + (k - before.len())] == entries@[k]);
        }
    }
}

/// The query parameters an operation takes, in the order the document lists
/// them.
///
/// A parameter this generator cannot place is refused rather than left off
/// the method, which is the same silence a body it cannot express would be.
pub fn query_params(op: &Json, item: &Json, path: &str, verb: &str) -> (r: Result<Vec<QueryParam>, String>)
    ensures
        match r {
            Ok(v) => query_params_spec(op@, item@, path@, verb@) == Ok::<Seq<QueryParamV>, Seq<char>>(params_view(v@)),
            Err(e) => query_params_spec(op@, item@, path@, verb@) == Err::<Seq<QueryParamV>, Seq<char>>(e@),
        },
{
    let mut entries: Vec<&Json> = Vec::new();
    match item.get("parameters") {
        Some(list) => match list.as_array() {
            Some(v) => push_all(&mut entries, v),
            None => {},
        },
        None => {},
    }
    assert(entries@.map_values(|j: &Json| j@) =~= match jarray(jfield(item@, "parameters"@)) {
        Some(v) => v,
        None => Seq::<JsonV>::empty(),
    });
    let ghost inherited = entries@.map_values(|j: &Json| j@);
    match op.get("parameters") {
        Some(list) => match list.as_array() {
            Some(v) => push_all(&mut entries, v),
            None => {},
        },
        None => {},
    }
    let ghost all = param_entries(op@, item@);
    assert(entries@.map_values(|j: &Json| j@) =~= all);
    let mut out: Vec<QueryParam> = Vec::new();
    let mut i: usize = 0;
    assert(all.take(0) =~= Seq::<JsonV>::empty());
    assert(params_view(out@) =~= Seq::<QueryParamV>::empty());
    while i < entries.len()
        invariant
            i <= entries@.len(),
            all == entries@.map_values(|j: &Json| j@),
            all == param_entries(op@, item@),
            params_fold(all.take(i as int), path@, verb@) == Ok::<Seq<QueryParamV>, Seq<char>>(params_view(out@)),
        decreases entries@.len() - i,
    {
        assert(all.take(i + 1).drop_last() =~= all.take(i as int));
        assert(all.take(i + 1).last() == entries@[i as int]@);
        match param_of(entries[i], path, verb) {
            Err(e) => {
                proof {
                    assert(params_fold(all.take(i + 1), path@, verb@) == Err::<Seq<QueryParamV>, Seq<char>>(e@));
                    lemma_fold_stays_failed(all, path@, verb@, i + 1, e@);
                    assert(params_fold(all, path@, verb@) == Err::<Seq<QueryParamV>, Seq<char>>(e@));
                    assert(query_params_spec(op@, item@, path@, verb@) == Err::<Seq<QueryParamV>, Seq<char>>(e@));
                }
                return Err(e);
            },
            Ok(None) => {},
            Ok(Some(p)) => {
                place(&mut out, p);
            },
        }
        i = i + 1;
    }
    assert(all.take(entries@.len() as int) =~= all);
    Ok(out)
}

/// Once a prefix of the entries fails, the whole list fails the same way.
proof fn lemma_fold_stays_failed(ps: Seq<JsonV>, path: Seq<char>, verb: Seq<char>, n: int, e: Seq<char>)
    requires
        0 <= n <= ps.len(),
        params_fold(ps.take(n), path, verb) == Err::<Seq<QueryParamV>, Seq<char>>(e),
    ensures
        params_fold(ps, path, verb) == Err::<Seq<QueryParamV>, Seq<char>>(e),
    decreases ps.len() - n,
{
    if n < ps.len() {
        assert(ps.take(n + 1).drop_last() =~= ps.take(n));
        lemma_fold_stays_failed(ps, path, verb, n + 1, e);
    } else {
        assert(ps.take(n) =~= ps);
    }
}

/// The `(name, value)` pair a generated method hands to `crate::query` for
/// one parameter.
pub open spec fn query_pair_spec(p: QueryParamV) -> Result<Seq<char>, Seq<char>> {
    match escape_spec(p.name) {
        Err(e) => Err(e),
        Ok(ident) => Ok(
            if p.required {
                "("@ + debug_quoted(p.name) + ", Some(::std::string::ToString::to_string(&request."@ + ident + ")))"@
            } else {
                "("@ + debug_quoted(p.name) + ", request."@ + ident + ".as_ref().map(::std::string::ToString::to_string))"@
            },
        ),
    }
}

/// The pairs for each parameter, or the first parameter's that cannot be
/// named.
pub open spec fn pairs_fold(ps: Seq<QueryParamV>) -> Result<Seq<Seq<char>>, Seq<char>>
    decreases ps.len(),
{
    if ps.len() == 0 {
        Ok(Seq::empty())
    } else {
        match pairs_fold(ps.drop_last()) {
            Err(e) => Err(e),
            Ok(done) => match query_pair_spec(ps.last()) {
                Err(e) => Err(e),
                Ok(pair) => Ok(done.push(pair)),
            },
        }
    }
}

/// The `(name, value)` pairs a generated method hands to `crate::query`.
pub open spec fn query_pairs_spec(ps: Seq<QueryParamV>) -> Result<Seq<char>, Seq<char>> {
    match pairs_fold(ps) {
        Err(e) => Err(e),
        Ok(pairs) => Ok(joined(pairs, ", "@)),
    }
}

/// Once a prefix fails, the whole list fails the same way.
proof fn lemma_pairs_stay_failed(ps: Seq<QueryParamV>, n: int, e: Seq<char>)
    requires
        0 <= n <= ps.len(),
        pairs_fold(ps.take(n)) == Err::<Seq<Seq<char>>, Seq<char>>(e),
    ensures
        pairs_fold(ps) == Err::<Seq<Seq<char>>, Seq<char>>(e),
    decreases ps.len() - n,
{
    if n < ps.len() {
        assert(ps.take(n + 1).drop_last() =~= ps.take(n));
        lemma_pairs_stay_failed(ps, n + 1, e);
    } else {
        assert(ps.take(n) =~= ps);
    }
}

/// The `(name, value)` pairs a generated method hands to `crate::query`.
pub fn query_pairs(query: &[QueryParam]) -> (r: Result<String, String>)
    ensures
        text_result(r) == query_pairs_spec(params_view(query@)),
{
    let ghost qv = params_view(query@);
    let mut pairs: Vec<String> = Vec::new();
    let mut i: usize = 0;
    assert(qv.take(0) =~= Seq::<QueryParamV>::empty());
    assert(pairs@.map_values(|s: String| s@) =~= Seq::<Seq<char>>::empty());
    while i < query.len()
        invariant
            i <= query@.len(),
            qv == params_view(query@),
            pairs_fold(qv.take(i as int)) == Ok::<Seq<Seq<char>>, Seq<char>>(pairs@.map_values(|s: String| s@)),
        decreases query@.len() - i,
    {
        assert(qv.take(i + 1).drop_last() =~= qv.take(i as int));
        assert(qv.take(i + 1).last() == query@[i as int]@);
        let param = &query[i];
        let ident = match escape_ident(param.name.as_str()) {
            Ok(x) => x,
            Err(e) => {
                proof {
                    lemma_pairs_stay_failed(qv, i + 1, e@);
                }
                return Err(e);
            },
        };
        let mut pair = String::from_str("(");
        push_str(&mut pair, quoted(param.name.as_str()).as_str());
        if param.required {
            push_str(&mut pair, ", Some(::std::string::ToString::to_string(&request.");
            push_str(&mut pair, ident.as_str());
            push_str(&mut pair, ")))");
        } else {
            push_str(&mut pair, ", request.");
            push_str(&mut pair, ident.as_str());
            push_str(&mut pair, ".as_ref().map(::std::string::ToString::to_string))");
        }
        let ghost pv = pair@;
        pairs.push(pair);
        assert(pairs@.map_values(|s: String| s@) =~= pairs_fold(qv.take(i as int))->Ok_0.push(pv));
        i = i + 1;
    }
    assert(qv.take(query@.len() as int) =~= qv);
    Ok(join(pairs.as_slice(), ", "))
}

/// Whether an operation's method was published before this generator could
/// express its request body: those widen their last path parameter to the
/// envelope rather than gaining an argument. A new operation never joins them.
pub open spec fn grandfathered(verb: Seq<char>, path: Seq<char>) -> bool {
    ||| (verb == "post"@ && path == "/artifacts/groups/{group}/{version}/{artifact_type}/{platform}"@)
    ||| (verb == "post"@ && path == "/artifacts/{version}/{artifact_type}/{platform}"@)
    ||| (verb == "post"@ && path == "/versions/{version}"@)
}

/// The operations whose method was published before this generator could
/// express its request body, as `(verb, path)`.
pub fn grandfathered_list() -> (r: Vec<(&'static str, &'static str)>)
    ensures
        r@.len() == 3,
        r@[0].0@ == "post"@ && r@[0].1@ == "/artifacts/groups/{group}/{version}/{artifact_type}/{platform}"@,
        r@[1].0@ == "post"@ && r@[1].1@ == "/artifacts/{version}/{artifact_type}/{platform}"@,
        r@[2].0@ == "post"@ && r@[2].1@ == "/versions/{version}"@,
        forall|v: Seq<char>, p: Seq<char>| grandfathered(v, p) <==> exists|k: int| 0 <= k < 3 && (#[trigger] r@[k]).0@ == v && r@[k].1@ == p,
{
    let r = vec![
        ("post", "/artifacts/groups/{group}/{version}/{artifact_type}/{platform}"),
        ("post", "/artifacts/{version}/{artifact_type}/{platform}"),
        ("post", "/versions/{version}"),
    ];
    assert forall|v: Seq<char>, p: Seq<char>| grandfathered(v, p) implies exists|k: int| 0 <= k < 3 && (#[trigger] r@[k]).0@ == v && r@[k].1@ == p by {
        if v == "post"@ && p == "/artifacts/groups/{group}/{version}/{artifact_type}/{platform}"@ {
            assert(r@[0].0@ == v && r@[0].1@ == p);
        } else if v == "post"@ && p == "/artifacts/{version}/{artifact_type}/{platform}"@ {
            assert(r@[1].0@ == v && r@[1].1@ == p);
        } else {
            assert(r@[2].0@ == v && r@[2].1@ == p);
        }
    }
    r
}

/// Whether the operation is one of those published before this generator
/// could express its request body.
pub fn is_grandfathered(verb: &str, path: &str) -> (r: bool)
    ensures
        r == grandfathered(verb@, path@),
{
    let list = grandfathered_list();
    let mut k: usize = 0;
    while k < list.len()
        invariant
            k <= 3,
            list@.len() == 3,
            forall|v: Seq<char>, p: Seq<char>| grandfathered(v, p) <==> exists|j: int| 0 <= j < 3 && (#[trigger] list@[j]).0@ == v && list@[j].1@ == p,
            forall|j: int| 0 <= j < k ==> !((#[trigger] list@[j]).0@ == verb@ && list@[j].1@ == path@),
        decreases 3 - k,
    {
        if str_eq(list[k].0, verb) && str_eq(list[k].1, path) {
            return true;
        }
        k = k + 1;
    }
    false
}

/// The single request argument an operation's method takes.
#[derive(Debug)]
pub struct Envelope {
    pub name: String,
    /// The path parameter this envelope absorbs, for a grandfathered method.
    /// That method takes the parameter as `impl Into<...>`, so the envelope
    /// has to carry it in the parameter's place.
    pub absorbed: Option<String>,
    pub body: Option<Body>,
    pub query: Vec<QueryParam>,
}

/// An envelope as what it holds.
pub struct EnvelopeV {
    pub name: Seq<char>,
    pub absorbed: Option<Seq<char>>,
    pub body: Option<BodyV>,
    pub query: Seq<QueryParamV>,
}

/// Strings as their texts.
pub open spec fn texts_view(v: Seq<String>) -> Seq<Seq<char>> {
    v.map_values(|p: String| p@)
}

/// An optional text.
pub open spec fn opt_seq(s: Option<String>) -> Option<Seq<char>> {
    match s {
        Some(t) => Some(t@),
        None => None,
    }
}

impl View for Envelope {
    type V = EnvelopeV;

    open spec fn view(&self) -> EnvelopeV {
        EnvelopeV {
            name: self.name@,
            absorbed: opt_seq(self.absorbed),
            body: opt_body(self.body),
            query: params_view(self.query@),
        }
    }
}

/// The identifiers of the fields an envelope carries, in order, or why one of
/// them has no identifier form.
pub open spec fn field_idents(absorbed: Option<Seq<char>>, has_body: bool, query: Seq<QueryParamV>) -> Result<Seq<Seq<char>>, Seq<char>> {
    let first = match absorbed {
        None => Ok(Seq::<Seq<char>>::empty()),
        Some(a) => match escape_spec(a) {
            Ok(i) => Ok(seq![i]),
            Err(e) => Err(e),
        },
    };
    match first {
        Err(e) => Err(e),
        Ok(head) => match idents_fold(query) {
            Err(e) => Err(e),
            Ok(rest) => Ok(head + (if has_body { seq!["body"@] } else { Seq::empty() }) + rest),
        },
    }
}

/// The identifiers of the query parameters, or the first one's error.
pub open spec fn idents_fold(query: Seq<QueryParamV>) -> Result<Seq<Seq<char>>, Seq<char>>
    decreases query.len(),
{
    if query.len() == 0 {
        Ok(Seq::empty())
    } else {
        match idents_fold(query.drop_last()) {
            Err(e) => Err(e),
            Ok(done) => match escape_spec(query.last().name) {
                Err(e) => Err(e),
                Ok(i) => Ok(done.push(i)),
            },
        }
    }
}

/// The first field that repeats one before it.
pub open spec fn first_repeat(fields: Seq<Seq<char>>) -> Option<Seq<char>>
    decreases fields.len(),
{
    if fields.len() == 0 {
        None
    } else {
        match first_repeat(fields.drop_last()) {
            Some(f) => Some(f),
            None => if fields.drop_last().contains(fields.last()) {
                Some(fields.last())
            } else {
                None
            },
        }
    }
}

/// The envelope an operation's method takes, or why it cannot be built.
///
/// Fields are compared as the identifiers they become, not as the names they
/// came from: `body-id` and `body_id` are two names and one field.
pub open spec fn envelope_spec(
    operation_id: Seq<char>,
    path: Seq<char>,
    verb: Seq<char>,
    params: Seq<Seq<char>>,
    body: Option<BodyV>,
    query: Seq<QueryParamV>,
) -> Result<EnvelopeV, Seq<char>> {
    if grandfathered(verb, path) && params.len() == 0 {
        Err(
            upper_text(verb) + " "@ + path
                + " is listed as a method published before its body could be expressed, but it has no path parameter to widen, so its published signature has nowhere to carry a request"@,
        )
    } else {
        let absorbed = if grandfathered(verb, path) { Some(params.last()) } else { None };
        match field_idents(absorbed, body is Some, query) {
            Err(e) => Err(e),
            Ok(fields) => match first_repeat(fields) {
                Some(f) => Err(
                    "the request envelope for "@ + upper_text(verb) + " "@ + path + " would carry two fields named "@ + f,
                ),
                None => Ok(EnvelopeV { name: pascal_spec(operation_id) + "Request"@, absorbed, body, query }),
            },
        }
    }
}

/// Once a prefix fails, the whole list fails the same way.
proof fn lemma_idents_stay_failed(ps: Seq<QueryParamV>, n: int, e: Seq<char>)
    requires
        0 <= n <= ps.len(),
        idents_fold(ps.take(n)) == Err::<Seq<Seq<char>>, Seq<char>>(e),
    ensures
        idents_fold(ps) == Err::<Seq<Seq<char>>, Seq<char>>(e),
    decreases ps.len() - n,
{
    if n < ps.len() {
        assert(ps.take(n + 1).drop_last() =~= ps.take(n));
        lemma_idents_stay_failed(ps, n + 1, e);
    } else {
        assert(ps.take(n) =~= ps);
    }
}

/// Whether a text is among the first `n` of the list.
fn among(fields: &Vec<String>, n: usize, f: &str) -> (r: bool)
    requires
        n <= fields@.len(),
    ensures
        r == fields@.take(n as int).map_values(|s: String| s@).contains(f@),
{
    let ghost v = fields@.take(n as int).map_values(|s: String| s@);
    let mut k: usize = 0;
    while k < n
        invariant
            k <= n <= fields@.len(),
            v == fields@.take(n as int).map_values(|s: String| s@),
            forall|j: int| 0 <= j < k ==> v[j] != f@,
        decreases n - k,
    {
        if str_eq(fields[k].as_str(), f) {
            assert(v[k as int] == f@);
            return true;
        }
        k = k + 1;
    }
    false
}

/// Build the request argument an operation's method takes.
///
/// Everything the operation carries travels in one struct, so that what it
/// carries can grow without the method's arity moving.
pub fn envelope(
    operation_id: &str,
    path: &str,
    verb: &str,
    params: &[String],
    body: Option<Body>,
    query: Vec<QueryParam>,
) -> (r: Result<Envelope, String>)
    ensures
        match r {
            Ok(e) => envelope_spec(operation_id@, path@, verb@, texts_view(params@), opt_body(body), params_view(query@))
                == Ok::<EnvelopeV, Seq<char>>(e@),
            Err(e) => envelope_spec(operation_id@, path@, verb@, texts_view(params@), opt_body(body), params_view(query@))
                == Err::<EnvelopeV, Seq<char>>(e@),
        },
{
    let mut name = pascal(operation_id);
    push_str(&mut name, "Request");
    let grand = is_grandfathered(verb, path);
    let absorbed: Option<String> = if grand {
        if params.len() == 0 {
            let mut e = to_uppercase(verb);
            push_str(&mut e, " ");
            push_str(&mut e, path);
            push_str(
                &mut e,
                " is listed as a method published before its body could be expressed, but it has no path parameter to widen, so its published signature has nowhere to carry a request",
            );
            return Err(e);
        }
        Some(params[params.len() - 1].clone())
    } else {
        None
    };
    let ghost qv = params_view(query@);
    let ghost pv = texts_view(params@);
    let ghost abs_v = opt_seq(absorbed);
    let ghost hb = body is Some;
    proof {
        if grand {
            assert(pv.last() == params@[params@.len() - 1]@);
        }
        assert(abs_v == if grandfathered(verb@, path@) { Some(pv.last()) } else { None::<Seq<char>> });
        assert(hb == opt_body(body) is Some);
    }
    let mut fields: Vec<String> = Vec::new();
    let ghost mut head_part: Seq<Seq<char>> = Seq::empty();
    match &absorbed {
        Some(a) => match escape_ident(a.as_str()) {
            Ok(i) => {
                proof {
                    head_part = seq![i@];
                }
                fields.push(i);
            },
            Err(e) => {
                assert(field_idents(abs_v, hb, qv) == Err::<Seq<Seq<char>>, Seq<char>>(e@));
                assert(!(grandfathered(verb@, path@) && pv.len() == 0));
                assert(envelope_spec(operation_id@, path@, verb@, pv, opt_body(body), qv) == Err::<EnvelopeV, Seq<char>>(e@));
                return Err(e);
            },
        },
        None => {},
    }
    assert(head_part == match abs_v {
        None => Seq::<Seq<char>>::empty(),
        Some(a) => seq![escape_spec(a)->Ok_0],
    });
    if body.is_some() {
        fields.push(String::from_str("body"));
    }
    let ghost head = fields@.map_values(|s: String| s@);
    assert(head =~= head_part + (if hb { seq!["body"@] } else { Seq::<Seq<char>>::empty() }));
    let mut i: usize = 0;
    assert(qv.take(0) =~= Seq::<QueryParamV>::empty());
    assert(fields@.map_values(|s: String| s@) =~= head + Seq::<Seq<char>>::empty());
    while i < query.len()
        invariant
            i <= query@.len(),
            qv == params_view(query@),
            pv == texts_view(params@),
            abs_v == if grandfathered(verb@, path@) { Some(pv.last()) } else { None::<Seq<char>> },
            !(grandfathered(verb@, path@) && pv.len() == 0),
            hb == opt_body(body) is Some,
            idents_fold(qv.take(i as int)) matches Ok(done) && fields@.map_values(|s: String| s@) == head + done,
            head == head_part + (if hb { seq!["body"@] } else { Seq::<Seq<char>>::empty() }),
            head_part == match abs_v {
                None => Seq::<Seq<char>>::empty(),
                Some(a) => seq![escape_spec(a)->Ok_0],
            },
            abs_v is Some ==> escape_spec(abs_v->0) is Ok,
        decreases query@.len() - i,
    {
        assert(qv.take(i + 1).drop_last() =~= qv.take(i as int));
        assert(qv.take(i + 1).last() == query@[i as int]@);
        match escape_ident(query[i].name.as_str()) {
            Ok(x) => {
                let ghost before = fields@.map_values(|s: String| s@);
                let ghost xv = x@;
                fields.push(x);
                assert(fields@.map_values(|s: String| s@) =~= before.push(xv));
            },
            Err(e) => {
                proof {
                    lemma_idents_stay_failed(qv, i + 1, e@);
                    assert(field_idents(abs_v, hb, qv) == Err::<Seq<Seq<char>>, Seq<char>>(e@));
                }
                return Err(e);
            },
        }
        i = i + 1;
    }
    assert(qv.take(query@.len() as int) =~= qv);
    let ghost fv = fields@.map_values(|s: String| s@);
    assert(field_idents(abs_v, hb, qv) == Ok::<Seq<Seq<char>>, Seq<char>>(fv)) by {
        let done = idents_fold(qv)->Ok_0;
        assert(fv =~= head_part + (if hb { seq!["body"@] } else { Seq::<Seq<char>>::empty() }) + done);
    }
    let mut at: usize = 0;
    assert(fv.take(0) =~= Seq::<Seq<char>>::empty());
    while at < fields.len()
        invariant
            at <= fields@.len(),
            fv == fields@.map_values(|s: String| s@),
            first_repeat(fv.take(at as int)) is None,
            qv == params_view(query@),
            field_idents(abs_v, hb, qv) == Ok::<Seq<Seq<char>>, Seq<char>>(fv),
            pv == texts_view(params@),
            abs_v == if grandfathered(verb@, path@) { Some(pv.last()) } else { None::<Seq<char>> },
            !(grandfathered(verb@, path@) && pv.len() == 0),
            hb == opt_body(body) is Some,

        decreases fields@.len() - at,
    {
        assert(fv.take(at + 1).drop_last() =~= fv.take(at as int));
        assert(fv.take(at as int) =~= fields@.take(at as int).map_values(|s: String| s@));
        if among(&fields, at, fields[at].as_str()) {
            let mut e = String::from_str("the request envelope for ");
            push_str(&mut e, to_uppercase(verb).as_str());
            push_str(&mut e, " ");
            push_str(&mut e, path);
            push_str(&mut e, " would carry two fields named ");
            push_str(&mut e, fields[at].as_str());
            proof {
                lemma_repeat_found(fv, at as int);
            }
            return Err(e);
        }
        at = at + 1;
    }
    assert(fv.take(fields@.len() as int) =~= fv);
    Ok(Envelope { name, absorbed, body, query })
}

/// The first repeat of a prefix is the first repeat of the whole.
proof fn lemma_repeat_found(fv: Seq<Seq<char>>, at: int)
    requires
        0 <= at < fv.len(),
        first_repeat(fv.take(at)) is None,
        fv.take(at).contains(fv[at]),
    ensures
        first_repeat(fv) == Some(fv[at]),
    decreases fv.len() - at,
{
    assert(fv.take(at + 1).drop_last() =~= fv.take(at));
    assert(first_repeat(fv.take(at + 1)) == Some(fv[at]));
    lemma_repeat_kept(fv, at + 1, fv[at]);
}

/// A repeat found in a prefix stays the first.
proof fn lemma_repeat_kept(fv: Seq<Seq<char>>, n: int, f: Seq<char>)
    requires
        0 <= n <= fv.len(),
        first_repeat(fv.take(n)) == Some(f),
    ensures
        first_repeat(fv) == Some(f),
    decreases fv.len() - n,
{
    if n < fv.len() {
        assert(fv.take(n + 1).drop_last() =~= fv.take(n));
        lemma_repeat_kept(fv, n + 1, f);
    } else {
        assert(fv.take(n) =~= fv);
    }
}

/// The texts run together.
pub open spec fn concat_texts(s: Seq<Seq<char>>) -> Seq<char>
    decreases s.len(),
{
    if s.len() == 0 {
        Seq::empty()
    } else {
        concat_texts(s.drop_last()) + s.last()
    }
}

/// A field of the envelope's struct.
pub struct FieldV {
    pub ident: Seq<char>,
    pub ty: Seq<char>,
    pub optional: bool,
    /// Whether the builder takes it by conversion.
    pub into: bool,
}

/// The fields the query parameters become, or the first one's error.
pub open spec fn query_fields(query: Seq<QueryParamV>) -> Result<Seq<FieldV>, Seq<char>>
    decreases query.len(),
{
    if query.len() == 0 {
        Ok(Seq::empty())
    } else {
        match query_fields(query.drop_last()) {
            Err(e) => Err(e),
            Ok(done) => match escape_spec(query.last().name) {
                Err(e) => Err(e),
                Ok(ident) => Ok(
                    done.push(
                        FieldV {
                            ident,
                            ty: query.last().ty,
                            optional: !query.last().required,
                            into: query.last().into,
                        },
                    ),
                ),
            },
        }
    }
}

/// The fields of an envelope's struct, in order: the absorbed path
/// parameter, the body, the query parameters.
pub open spec fn envelope_fields(e: EnvelopeV) -> Result<Seq<FieldV>, Seq<char>> {
    let head = match e.absorbed {
        None => Ok(Seq::<FieldV>::empty()),
        Some(a) => match escape_spec(a) {
            Err(x) => Err(x),
            Ok(ident) => Ok(seq![FieldV { ident, ty: "::std::string::String"@, optional: false, into: true }]),
        },
    };
    match head {
        Err(x) => Err(x),
        Ok(head) => match query_fields(e.query) {
            Err(x) => Err(x),
            Ok(rest) => Ok(
                head + (match e.body {
                    None => Seq::<FieldV>::empty(),
                    Some(b) => seq![
                        FieldV {
                            ident: "body"@,
                            ty: field_type_spec(b),
                            optional: e.absorbed is Some,
                            into: b is Text || b is Octets,
                        },
                    ],
                }) + rest,
            ),
        },
    }
}

/// A field's line in the struct.
pub open spec fn field_line(f: FieldV) -> Seq<char> {
    (if f.into { "\t#[builder(into)]\n"@ } else { Seq::empty() }) + "\tpub "@ + f.ident + ": "@
        + (if f.optional { "::std::option::Option<"@ + f.ty + ">"@ } else { f.ty }) + ",\n"@
}

/// A field's line in the conversion from a string-like value.
pub open spec fn from_line(f: FieldV) -> Seq<char> {
    if f.optional {
        "\t\t\t"@ + f.ident + ": ::std::option::Option::None,\n"@
    } else {
        "\t\t\t"@ + f.ident + ": value.as_ref().to_owned(),\n"@
    }
}

/// An envelope emitted as the struct a consumer builds, and (where it stands
/// in for a path parameter a published method took) the conversion that
/// keeps that method's call sites compiling.
pub open spec fn envelope_type_spec(e: EnvelopeV, verb: Seq<char>, path: Seq<char>) -> Result<Seq<char>, Seq<char>> {
    match envelope_fields(e) {
        Err(x) => Err(x),
        Ok(fields) => Ok(
            "/// Request for `"@ + upper_text(verb) + " "@ + path + "`.\n"@
                + (match e.absorbed {
                    Some(a) => "///\n"@
                        + "/// Converts from anything string-like, which is what this method took in place of\n/// `"@
                        + a
                        + "` before it carried a request, so a call written against that\n/// signature compiles unchanged and sends what it always sent.\n"@,
                    None => Seq::empty(),
                })
                + "#[derive(Clone, Debug, ::bon::Builder)]\n#[non_exhaustive]\n"@
                + "pub struct "@ + e.name + " {\n"@
                + concat_texts(fields.map_values(|f: FieldV| field_line(f)))
                + "}\n\n"@
                + (match e.absorbed {
                    Some(_) => "impl<T: ::std::convert::AsRef<str> + ?Sized> ::std::convert::From<&T> for "@ + e.name
                        + " {\n\tfn from(value: &T) -> Self {\n\t\tSelf {\n"@
                        + concat_texts(fields.map_values(|f: FieldV| from_line(f)))
                        + "\t\t}\n\t}\n}\n\n"@,
                    None => Seq::empty(),
                }),
        ),
    }
}

/// Whether a grandfathered envelope carries nothing the published signature
/// could not: a method that took only its path sends no required query
/// parameter.
pub open spec fn renders(e: EnvelopeV) -> bool {
    e.absorbed is Some ==> forall|k: int| 0 <= k < e.query.len() ==> !(#[trigger] e.query[k]).required
}

/// A field, as the emitter holds it.
struct Field {
    ident: String,
    ty: String,
    optional: bool,
    into: bool,
}

impl View for Field {
    type V = FieldV;

    closed spec fn view(&self) -> FieldV {
        FieldV { ident: self.ident@, ty: self.ty@, optional: self.optional, into: self.into }
    }
}

/// Once a prefix fails, the whole list fails the same way.
proof fn lemma_fields_stay_failed(ps: Seq<QueryParamV>, n: int, e: Seq<char>)
    requires
        0 <= n <= ps.len(),
        query_fields(ps.take(n)) == Err::<Seq<FieldV>, Seq<char>>(e),
    ensures
        query_fields(ps) == Err::<Seq<FieldV>, Seq<char>>(e),
    decreases ps.len() - n,
{
    if n < ps.len() {
        assert(ps.take(n + 1).drop_last() =~= ps.take(n));
        lemma_fields_stay_failed(ps, n + 1, e);
    } else {
        assert(ps.take(n) =~= ps);
    }
}

/// The fields of an envelope's struct.
fn fields_of(envelope: &Envelope) -> (r: Result<Vec<Field>, String>)
    ensures
        match r {
            Ok(v) => envelope_fields(envelope@) == Ok::<Seq<FieldV>, Seq<char>>(v@.map_values(|f: Field| f@)),
            Err(x) => envelope_fields(envelope@) == Err::<Seq<FieldV>, Seq<char>>(x@),
        },
{
    let ghost ev = envelope@;
    let ghost head_spec = match ev.absorbed {
        None => Seq::<FieldV>::empty(),
        Some(a) => seq![FieldV { ident: escape_spec(a)->Ok_0, ty: "::std::string::String"@, optional: false, into: true }],
    };
    let mut fields: Vec<Field> = Vec::new();
    match &envelope.absorbed {
        Some(a) => match escape_ident(a.as_str()) {
            Ok(ident) => fields.push(
                Field { ident, ty: String::from_str("::std::string::String"), optional: false, into: true },
            ),
            Err(x) => {
                return Err(x);
            },
        },
        None => {},
    }
    let ghost head = fields@.map_values(|f: Field| f@);
    assert(head =~= head_spec);
    let mut rest: Vec<Field> = Vec::new();
    let ghost qv = ev.query;
    let mut i: usize = 0;
    assert(qv.take(0) =~= Seq::<QueryParamV>::empty());
    assert(rest@.map_values(|f: Field| f@) =~= Seq::<FieldV>::empty());
    while i < envelope.query.len()
        invariant
            i <= envelope.query@.len(),
            ev == envelope@,
            qv == ev.query,
            head == head_spec,
            head_spec == match ev.absorbed {
                None => Seq::<FieldV>::empty(),
                Some(a) => seq![FieldV { ident: escape_spec(a)->Ok_0, ty: "::std::string::String"@, optional: false, into: true }],
            },
            ev.absorbed is Some ==> escape_spec(ev.absorbed->0) is Ok,
            query_fields(qv.take(i as int)) == Ok::<Seq<FieldV>, Seq<char>>(rest@.map_values(|f: Field| f@)),
        decreases envelope.query@.len() - i,
    {
        assert(qv.take(i + 1).drop_last() =~= qv.take(i as int));
        assert(qv.take(i + 1).last() == envelope.query@[i as int]@);
        let q = &envelope.query[i];
        match escape_ident(q.name.as_str()) {
            Ok(ident) => {
                let f = Field { ident, ty: q.ty.clone(), optional: !q.required, into: q.into };
                let ghost fv = f@;
                let ghost before = rest@.map_values(|f: Field| f@);
                rest.push(f);
                assert(rest@.map_values(|f: Field| f@) =~= before.push(fv));
            },
            Err(x) => {
                proof {
                    lemma_fields_stay_failed(qv, i + 1, x@);
                }
                return Err(x);
            },
        }
        i = i + 1;
    }
    assert(qv.take(envelope.query@.len() as int) =~= qv);
    match &envelope.body {
        Some(b) => {
            let into = match b {
                Body::Json(_) => false,
                _ => true,
            };
            fields.push(
                Field {
                    ident: String::from_str("body"),
                    ty: b.field_type(),
                    optional: envelope.absorbed.is_some(),
                    into,
                },
            );
        },
        None => {},
    }
    let ghost mid = fields@.map_values(|f: Field| f@);
    let ghost tail = rest@.map_values(|f: Field| f@);
    fields.append(&mut rest);
    assert(fields@.map_values(|f: Field| f@) =~= mid + tail);
    proof {
        assert(mid =~= head + (match ev.body {
            None => Seq::<FieldV>::empty(),
            Some(b) => seq![
                FieldV {
                    ident: "body"@,
                    ty: field_type_spec(b),
                    optional: ev.absorbed is Some,
                    into: b is Text || b is Octets,
                },
            ],
        }));
    }
    Ok(fields)
}

/// The lines of a list of fields, each as `line` writes it, run together.
fn field_lines(fields: &Vec<Field>, conversion: bool) -> (r: String)
    ensures
        r@ == if conversion {
            concat_texts(fields@.map_values(|f: Field| f@).map_values(|f: FieldV| from_line(f)))
        } else {
            concat_texts(fields@.map_values(|f: Field| f@).map_values(|f: FieldV| field_line(f)))
        },
{
    let ghost fv = fields@.map_values(|f: Field| f@);
    let ghost lines = if conversion {
        fv.map_values(|f: FieldV| from_line(f))
    } else {
        fv.map_values(|f: FieldV| field_line(f))
    };
    let mut out = String::new();
    let mut i: usize = 0;
    assert(lines.take(0) =~= Seq::<Seq<char>>::empty());
    while i < fields.len()
        invariant
            i <= fields@.len(),
            fv == fields@.map_values(|f: Field| f@),
            lines == if conversion {
                fv.map_values(|f: FieldV| from_line(f))
            } else {
                fv.map_values(|f: FieldV| field_line(f))
            },
            out@ == concat_texts(lines.take(i as int)),
        decreases fields@.len() - i,
    {
        assert(lines.take(i + 1).drop_last() =~= lines.take(i as int));
        let f = &fields[i];
        assert(fv[i as int] == f@);
        let ghost before = out@;
        if conversion {
            push_str(&mut out, "\t\t\t");
            push_str(&mut out, f.ident.as_str());
            if f.optional {
                push_str(&mut out, ": ::std::option::Option::None,\n");
            } else {
                push_str(&mut out, ": value.as_ref().to_owned(),\n");
            }
        } else {
            if f.into {
                push_str(&mut out, "\t#[builder(into)]\n");
            }
            push_str(&mut out, "\tpub ");
            push_str(&mut out, f.ident.as_str());
            push_str(&mut out, ": ");
            if f.optional {
                push_str(&mut out, "::std::option::Option<");
                push_str(&mut out, f.ty.as_str());
                push_str(&mut out, ">");
            } else {
                push_str(&mut out, f.ty.as_str());
            }
            push_str(&mut out, ",\n");
        }
        assert(out@ =~= before + lines[i as int]);
        i = i + 1;
    }
    assert(lines.take(fields@.len() as int) =~= lines);
    out
}

/// Emit an envelope as the struct a consumer builds, and (where it stands in
/// for a path parameter a published method took) the conversion that keeps
/// that method's call sites compiling.
pub fn envelope_type(envelope: &Envelope, verb: &str, path: &str) -> (r: Result<String, String>)
    requires
        renders(envelope@),
    ensures
        text_result(r) == envelope_type_spec(envelope@, verb@, path@),
{
    let fields = match fields_of(envelope) {
        Ok(f) => f,
        Err(x) => {
            return Err(x);
        },
    };
    let ghost fv = fields@.map_values(|f: Field| f@);
    let ghost e = envelope@;
    let mut out = String::from_str("/// Request for `");
    push_str(&mut out, to_uppercase(verb).as_str());
    push_str(&mut out, " ");
    push_str(&mut out, path);
    push_str(&mut out, "`.\n");
    if let Some(absorbed) = &envelope.absorbed {
        push_str(&mut out, "///\n");
        push_str(&mut out, "/// Converts from anything string-like, which is what this method took in place of\n/// `");
        push_str(&mut out, absorbed.as_str());
        push_str(
            &mut out,
            "` before it carried a request, so a call written against that\n/// signature compiles unchanged and sends what it always sent.\n",
        );
    }
    push_str(&mut out, "#[derive(Clone, Debug, ::bon::Builder)]\n#[non_exhaustive]\n");
    push_str(&mut out, "pub struct ");
    push_str(&mut out, envelope.name.as_str());
    push_str(&mut out, " {\n");
    push_str(&mut out, field_lines(&fields, false).as_str());
    push_str(&mut out, "}\n\n");
    if envelope.absorbed.is_some() {
        push_str(&mut out, "impl<T: ::std::convert::AsRef<str> + ?Sized> ::std::convert::From<&T> for ");
        push_str(&mut out, envelope.name.as_str());
        push_str(&mut out, " {\n\tfn from(value: &T) -> Self {\n\t\tSelf {\n");
        push_str(&mut out, field_lines(&fields, true).as_str());
        push_str(&mut out, "\t\t}\n\t}\n}\n\n");
    }
    assert(out@ =~= envelope_type_spec(e, verb@, path@)->Ok_0);
    Ok(out)
}

} // verus!
