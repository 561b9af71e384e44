use canopy::codegen::envelope::query_type;
use canopy::codegen::methods::{methods, methods_checked};
use canopy::codegen::names::{escape_ident, pascal, reference_type_name};
use canopy::codegen::operation::{request_body, response, Body};
use canopy::json::Json;
use canopy::codegen::output::{check_carried, takes_further_keys};
use canopy::codegen::schemas::{prepare, prepare_document};

/// The library's JSON for a `serde_json` value.
fn from_value(v: &serde_json::Value) -> Json {
    match v {
        serde_json::Value::Null => Json::Null,
        serde_json::Value::Bool(b) => Json::Bool(*b),
        serde_json::Value::Number(n) => Json::Number(n.to_string()),
        serde_json::Value::String(s) => Json::String(s.clone()),
        serde_json::Value::Array(a) => Json::Array(a.iter().map(from_value).collect()),
        serde_json::Value::Object(m) => {
            Json::Object(m.iter().map(|(k, v)| (k.clone(), from_value(v))).collect())
        }
    }
}

fn value(text: &str) -> serde_json::Value {
    serde_json::from_str(text).expect("the fixture is JSON")
}

fn json(text: &str) -> Json {
    from_value(&value(text))
}

fn spec_with(extra: &str) -> Json {
    let mut paths = value(
        r#"{
            "/artifacts/groups/{group}/{version}/{artifact_type}/{platform}": {
                "post": {
                    "operationId": "register_group_artifact",
                    "requestBody": {"content": {"application/octet-stream": {"schema": {}}}}
                }
            },
            "/artifacts/{version}/{artifact_type}/{platform}": {
                "post": {
                    "operationId": "register_artifact",
                    "requestBody": {"content": {"text/plain": {"schema": {}}}}
                }
            },
            "/versions/{version}": {
                "post": {
                    "operationId": "create_version",
                    "requestBody": {"content": {"text/plain": {"schema": {}}}}
                }
            }
        }"#,
    );
    let into = paths.as_object_mut().expect("the fixture is an object");
    for (path, item) in value(extra).as_object().expect("the extra is an object") {
        into.insert(path.clone(), item.clone());
    }
    let mut doc = serde_json::Map::new();
    doc.insert("paths".to_owned(), paths);
    from_value(&serde_json::Value::Object(doc))
}

fn body_of(media: &str, schema: &str) -> Result<Option<Body>, String> {
    let mut content = serde_json::Map::new();
    let mut holder = serde_json::Map::new();
    holder.insert("schema".to_owned(), value(schema));
    content.insert(media.to_owned(), serde_json::Value::Object(holder));
    let mut body = serde_json::Map::new();
    body.insert("content".to_owned(), serde_json::Value::Object(content));
    let mut op = serde_json::Map::new();
    op.insert("requestBody".to_owned(), serde_json::Value::Object(body));
    request_body(&from_value(&serde_json::Value::Object(op)), "/a", "post")
}

fn no_names() -> Vec<String> {
    Vec::new()
}

#[test]
fn a_body_the_client_can_send_is_typed_by_its_media_type() {
    assert!(matches!(body_of("application/octet-stream", "{}"), Ok(Some(Body::Octets))));
    assert!(matches!(body_of("text/plain", r#"{"type": "string"}"#), Ok(Some(Body::Text))));
    assert!(matches!(
        body_of("application/json", r##"{"$ref": "#/components/schemas/Args"}"##),
        Ok(Some(Body::Json(ty))) if ty == "Args"
    ));
}

#[test]
fn a_body_the_client_cannot_send_is_refused_rather_than_dropped() {
    let err = body_of("multipart/form-data", "{}").unwrap_err();
    assert!(err.contains("leaves its body behind"), "{err}");
}

#[test]
fn a_json_body_that_is_not_a_ref_is_refused() {
    let err = body_of("application/json", r#"{"type": "object"}"#).unwrap_err();
    assert!(err.contains("cannot be typed"), "{err}");
}

#[test]
fn a_body_declaring_several_media_types_is_refused() {
    let op = json(
        r#"{"requestBody": {"content": {"text/plain": {"schema": {}}, "application/json": {"schema": {}}}}}"#,
    );
    let err = request_body(&op, "/a", "post").unwrap_err();
    assert!(err.contains("more than one media type"), "{err}");
}

#[test]
fn an_operation_with_no_body_has_none() {
    assert!(matches!(request_body(&json("{}"), "/a", "post"), Ok(None)));
}

#[test]
fn a_query_parameter_is_typed_as_the_document_describes_it() {
    let ty = |schema: &str| query_type(&json(schema));
    assert_eq!(ty(r#"{"type": "string", "format": "uuid"}"#), Some(("::uuid::Uuid".to_owned(), false)));
    assert_eq!(
        ty(r#"{"type": "string"}"#),
        Some(("::std::string::String".to_owned(), true)),
        "a string-typed parameter is taken by conversion"
    );
    assert_eq!(ty(r#"{"type": "integer"}"#), Some(("i64".to_owned(), false)));
    // An optional parameter may be rendered as a union with null.
    assert_eq!(
        ty(r#"{"type": ["string", "null"], "format": "uuid"}"#),
        Some(("::uuid::Uuid".to_owned(), false))
    );
    assert_eq!(ty(r#"{"type": "object"}"#), None);
}

#[test]
fn a_query_parameter_travels_in_the_envelope_rather_than_as_an_argument() {
    let spec = spec_with(
        r#"{
            "/widgets": {
                "post": {
                    "operationId": "make_widget",
                    "parameters": [{"name": "shape", "in": "query", "schema": {"type": "string"}}],
                    "requestBody": {"content": {"application/octet-stream": {"schema": {}}}}
                }
            }
        }"#,
    );
    let out = methods(&spec, &no_names()).expect("the fixture generates");

    assert!(out.contains("pub struct MakeWidgetRequest"), "{out}");
    assert!(
        out.contains("pub shape: ::std::option::Option<::std::string::String>"),
        "a parameter is a field, so adding another one later is a compatible change\n{out}"
    );
    assert!(
        out.contains("pub async fn widgets(&self, request: MakeWidgetRequest)"),
        "an operation with no published method takes its envelope as a trailing argument\n{out}"
    );
}

#[test]
fn a_required_query_parameter_is_not_optional_and_is_always_sent() {
    let spec = spec_with(
        r#"{
            "/widgets": {
                "post": {
                    "operationId": "make_widget",
                    "parameters": [{
                        "name": "shape",
                        "in": "query",
                        "required": true,
                        "schema": {"type": "string", "format": "uuid"}
                    }]
                }
            }
        }"#,
    );
    let out = methods(&spec, &no_names()).expect("the fixture generates");

    assert!(out.contains("pub shape: ::uuid::Uuid"), "a required parameter is not an option\n{out}");
    assert!(
        out.contains("(\"shape\", Some(::std::string::ToString::to_string(&request.shape)))"),
        "and is always placed in the query\n{out}"
    );
}

#[test]
fn a_grandfathered_method_widens_its_last_path_parameter() {
    let out = methods(&spec_with("{}"), &no_names()).expect("the fixture generates");
    assert!(
        out.contains(
            "pub async fn artifacts(&self, version: &str, artifact_type: &str, platform: impl \
             ::std::convert::Into<RegisterArtifactRequest>)"
        ),
        "the published parameter widens in place, so its arity does not move\n{out}"
    );
    assert!(
        out.contains("impl<T: ::std::convert::AsRef<str> + ?Sized> ::std::convert::From<&T>"),
        "the conversion is what keeps a published call site compiling\n{out}"
    );
}

#[test]
fn a_path_parameter_shadowing_the_request_argument_is_refused() {
    let spec = spec_with(
        r#"{
            "/widgets/{request}": {
                "post": {
                    "operationId": "make_widget",
                    "parameters": [{"name": "shape", "in": "query", "schema": {"type": "string"}}]
                }
            }
        }"#,
    );
    let err = methods(&spec, &no_names()).unwrap_err();
    assert!(err.contains("would shadow it"), "{err}");
}

#[test]
fn a_parameter_this_generator_cannot_place_is_refused_rather_than_dropped() {
    let with = |param: &str| {
        let extra = format!(
            r#"{{"/widgets": {{"post": {{"operationId": "make_widget", "parameters": [{param}]}}}}}}"#
        );
        methods(&spec_with(&extra), &no_names()).unwrap_err()
    };

    let err = with(r##"{"$ref": "#/components/parameters/Run"}"##);
    assert!(err.contains("is a $ref"), "{err}");

    let err = with(r#"{"name": "x-trace", "in": "header", "schema": {"type": "string"}}"#);
    assert!(err.contains("carried in header"), "{err}");

    let err = with(r#"{"name": "shape", "schema": {"type": "string"}}"#);
    assert!(err.contains("no stated place"), "{err}");
}

#[test]
fn a_path_items_own_parameters_reach_every_operation_under_it() {
    let spec = spec_with(
        r#"{
            "/widgets": {
                "parameters": [{"name": "shape", "in": "query", "schema": {"type": "string"}}],
                "post": {"operationId": "make_widget"}
            }
        }"#,
    );
    let out = methods(&spec, &no_names()).expect("the fixture generates");
    assert!(
        out.contains("pub shape: ::std::option::Option<::std::string::String>"),
        "a parameter the path item carries applies to the operation\n{out}"
    );
}

#[test]
fn two_operations_generating_one_request_type_are_refused() {
    let spec = spec_with(
        r#"{
            "/widgets": {
                "post": {
                    "operationId": "make_thing",
                    "parameters": [{"name": "shape", "in": "query", "schema": {"type": "string"}}]
                }
            },
            "/gadgets": {
                "post": {
                    "operationId": "make_thing",
                    "parameters": [{"name": "shape", "in": "query", "schema": {"type": "string"}}]
                }
            }
        }"#,
    );
    let err = methods(&spec, &no_names()).unwrap_err();
    assert!(err.contains("because their operationIds agree"), "{err}");
}

#[test]
fn a_request_body_declaring_no_media_type_says_so() {
    let op = json(r#"{"requestBody": {"content": {}}}"#);
    let err = request_body(&op, "/a", "post").unwrap_err();
    assert!(err.contains("no media type at all"), "{err}");
}

#[test]
fn a_ledger_entry_matching_no_operation_is_refused() {
    let spec = json(r#"{"paths": {"/unrelated": {"get": {"operationId": "unrelated"}}}}"#);
    let err = methods(&spec, &no_names()).unwrap_err();
    assert!(err.contains("the path moved"), "{err}");
}

#[test]
fn an_envelope_colliding_with_a_schema_is_refused() {
    let names = vec!["RegisterArtifactRequest".to_owned()];
    let err = methods(&spec_with("{}"), &names).unwrap_err();
    assert!(err.contains("already declares as a schema"), "{err}");
}

#[test]
fn a_name_that_is_a_keyword_is_escaped() {
    assert_eq!(escape_ident("type").unwrap(), "r#type");
    assert_eq!(escape_ident("artifact-type").unwrap(), "artifact_type");
    assert_eq!(escape_ident("platform").unwrap(), "platform");
}

#[test]
fn a_name_with_no_identifier_form_is_refused_rather_than_emitted() {
    // `r#self` and `r#crate` are not legal raw identifiers, and a name
    // opening with a digit is not an identifier at all.
    for name in ["self", "crate", "Self", "super", "2fa", "_"] {
        let err = escape_ident(name).expect_err("this name has no identifier form");
        assert!(err.contains("no form that is a Rust identifier"), "{err}");
    }
}

#[test]
fn an_envelope_is_named_after_its_operation() {
    assert_eq!(pascal("register_group_artifact"), "RegisterGroupArtifact");
    assert_eq!(pascal("create_version"), "CreateVersion");
}

#[test]
fn a_type_name_is_the_last_segment_of_its_reference() {
    assert_eq!(reference_type_name("#/components/schemas/Foo"), "Foo");
    assert_eq!(reference_type_name("Bare"), "Bare");
    assert_eq!(reference_type_name("ends/"), "");
}

#[test]
fn pascal_capitalises_each_word_and_drops_the_separators() {
    assert_eq!(pascal("make-widget__now"), "MakeWidgetNow");
    assert_eq!(pascal("_leading"), "Leading");
    assert_eq!(pascal(""), "");
}

#[test]
fn a_response_is_typed_by_its_reference_array_or_map() {
    let op = json(
        r##"{"responses": {"200": {"content": {"application/json": {"schema": {"$ref": "#/components/schemas/Thing"}}}}}}"##,
    );
    assert_eq!(response(&op, "/a", "get").unwrap(), Some("Thing".to_owned()));
    let op = json(
        r##"{"responses": {"200": {"content": {"application/json": {"schema": {"type": "array", "items": {"$ref": "#/x/Item"}}}}}}}"##,
    );
    assert_eq!(response(&op, "/a", "get").unwrap(), Some("::std::vec::Vec<Item>".to_owned()));
    let op = json(
        r##"{"responses": {"200": {"content": {"application/json": {"schema": {"type": "object", "additionalProperties": {"$ref": "#/x/V"}}}}}}}"##,
    );
    assert_eq!(
        response(&op, "/a", "get").unwrap(),
        Some("::std::collections::HashMap<::std::string::String, V>".to_owned())
    );
    assert_eq!(response(&json("{}"), "/a", "get").unwrap(), None);
    let op = json(r#"{"responses": {"200": {"content": {"application/json": {"schema": {"type": "string"}}}}}}"#);
    let err = response(&op, "/a", "get").unwrap_err();
    assert!(err.starts_with("the response of GET /a cannot be typed"), "{err}");
    assert!(err.ends_with("schema: {\"type\":\"string\"}"), "{err}");
}

#[test]
fn a_method_with_one_verb_on_its_path_is_named_for_the_path_alone() {
    let spec = spec_with(
        r#"{
            "/things/{id}/parts": {"get": {"summary": "Parts.\n\nAll of them."}},
            "/dual": {"get": {}, "put": {}}
        }"#,
    );
    let out = methods(&spec, &no_names()).expect("the fixture generates");
    assert!(out.contains("\t/// Parts.\n\t///\n\t/// All of them.\n\t///\n\t/// `GET /things/{id}/parts`\n"), "{out}");
    assert!(out.contains("pub async fn things_parts(&self, id: &str) -> crate::Result<()> {"), "{out}");
    assert!(out.contains("crate::segments(\"/things/{id}/parts\", &[(\"id\", id)])?;"), "{out}");
    assert!(out.contains("self.call_empty(::http::Method::GET, &format!(\"/things/{}/parts\", id), None::<&()>).await"), "{out}");
    assert!(out.contains("pub async fn get_dual(&self)"), "{out}");
    assert!(out.contains("pub async fn put_dual(&self)"), "{out}");
    assert!(out.starts_with("/// Request for `POST /artifacts/groups/{group}/{version}/{artifact_type}/{platform}`."), "{out}");
    assert!(out.ends_with("}\n"), "{out}");
}

#[test]
fn only_a_folded_schema_s_struct_without_an_extra_field_takes_the_further_keys() {
    let folded = vec!["Widget".to_string(), "Gadget".to_string()];
    let plain = vec!["id".to_string(), "name".to_string()];
    let with_extra = vec!["id".to_string(), "extra".to_string()];
    assert!(takes_further_keys("Widget", &folded, &plain));
    assert!(!takes_further_keys("Widget", &folded, &with_extra));
    assert!(!takes_further_keys("Other", &folded, &plain));
}

#[test]
fn a_folded_schema_without_a_place_for_its_keys_is_refused() {
    let open = vec!["Widget".to_string(), "Gadget".to_string()];
    assert!(check_carried(&open, &open).is_ok());
    assert_eq!(
        check_carried(&open, &vec!["Widget".to_string()]),
        Err("Gadget accepts further keys but its generated type has nowhere to carry them, so a consumer could neither send nor read them".to_string())
    );
}

/// The grandfathered registration given a required query parameter its
/// published signature never sent.
fn spec_with_a_required_grandfathered_parameter() -> Json {
    spec_with(
        r#"{
            "/artifacts/{version}/{artifact_type}/{platform}": {
                "post": {
                    "operationId": "register_artifact",
                    "parameters": [{
                        "name": "group",
                        "in": "query",
                        "required": true,
                        "schema": {"type": "string", "format": "uuid"}
                    }],
                    "requestBody": {"content": {"text/plain": {"schema": {}}}}
                }
            }
        }"#,
    )
}

#[test]
fn a_document_refused_before_its_envelopes_are_emitted_is_refused_whatever_they_hold() {
    let names = vec!["RegisterArtifactRequest".to_owned()];
    let spec = spec_with_a_required_grandfathered_parameter();
    let err = methods(&spec, &names).unwrap_err();
    assert!(err.contains("already declares as a schema"), "{err}");
    let checked = methods_checked(&spec, &names).expect("refused before any envelope is emitted");
    assert_eq!(checked.unwrap_err(), err);
}

#[test]
fn only_a_document_that_gets_as_far_as_an_envelope_it_cannot_emit_renders_nothing() {
    assert!(methods_checked(&spec_with_a_required_grandfathered_parameter(), &no_names()).is_none());
    let plain = methods_checked(&spec_with("{}"), &no_names()).expect("every envelope renders");
    assert_eq!(plain, methods(&spec_with("{}"), &no_names()));
}

#[test]
fn a_document_without_a_version_or_schemas_is_refused() {
    let no_version = "document declares no info.version; it is the version the crate takes, so generation cannot settle one for it";
    let err = |text: &str| prepare_document(json(text), &vec![0u8; 32]).unwrap_err();
    assert_eq!(err(r#"{"components": {"schemas": {}}}"#), no_version);
    assert_eq!(err(r#"{"info": {"version": ""}, "components": {"schemas": {}}}"#), no_version);
    assert_eq!(err(r#"{"info": {"version": 3}, "components": {"schemas": {}}}"#), no_version);
    assert_eq!(err(r#"{"info": {"version": "1.2.3"}}"#), "document has no components.schemas");
    assert!(prepare("{not json").is_err());
}

/// The schemas every document carries: those holding a credential secret.
const SECRET_HOLDERS: &str = r#""BackupTarget": {"type": "object", "properties": {"repo_password": {"type": "string", "description": "d"}}},
    "CredentialProcessOutput": {"type": "object", "properties": {"SecretAccessKey": {"type": "string"}, "SessionToken": {"type": "string"}}},
    "RestoreCredentials": {"type": "object", "properties": {"repo_password": {"type": "string"}}}"#;

#[test]
fn a_prepared_document_carries_its_version_digest_and_the_synthetic_schemas() {
    let text = format!(
        r#"{{"info": {{"version": "1.2.3"}}, "components": {{"schemas": {{"Widget": {{"type": "object", "properties": {{"id": {{"type": "string"}}}}}}, {SECRET_HOLDERS}}}}}}}"#
    );
    let p = prepare_document(json(&text), &vec![0xab, 0x01, 0xf0]).expect("the document prepares");
    assert_eq!(p.version, "1.2.3");
    assert_eq!(p.digest, "ab01f0");
    assert_eq!(p.schema_names.len(), 6);
    for name in ["Widget", "CanopyTimestamp", "CanopySecret"] {
        assert!(p.schema_names.iter().any(|n| n == name), "{name}");
    }
    assert!(p.open.is_empty());
    let backup = &p.schemas.iter().find(|(n, _)| n == "BackupTarget").expect("kept").1;
    let reference = backup.lookup(&["properties", "repo_password", "$ref"]).and_then(|v| v.as_str());
    assert_eq!(reference, Some("#/definitions/CanopySecret"));

    let p = prepare(&text).expect("the document prepares");
    assert_eq!(p.digest, blake3::hash(text.as_bytes()).to_hex().to_string());
}

#[test]
fn a_document_that_lost_a_secret_field_is_refused() {
    let err = prepare_document(json(r#"{"info": {"version": "1.2.3"}, "components": {"schemas": {}}}"#), &vec![])
        .unwrap_err();
    assert!(err.contains("BackupTarget.repo_password"), "{err}");
}
