use canopy::json::Json;
use canopy::servers::request_compression_extension;

fn to_value(j: &Json) -> serde_json::Value {
    match j {
        Json::Null => serde_json::Value::Null,
        Json::Bool(b) => serde_json::Value::Bool(*b),
        Json::Number(n) => serde_json::from_str(n).unwrap(),
        Json::String(s) => serde_json::Value::String(s.clone()),
        Json::Array(a) => serde_json::Value::Array(a.iter().map(to_value).collect()),
        Json::Object(m) => serde_json::Value::Object(m.iter().map(|(k, v)| (k.clone(), to_value(v))).collect()),
    }
}

#[test]
fn the_compression_extension_names_what_the_servers_accept() {
    let ext = to_value(&request_compression_extension());
    let expected: serde_json::Value = serde_json::from_str(
        r#"{"accepted":["gzip","br","deflate","zstd"],"recommended":true,"header":"Content-Encoding"}"#,
    )
    .unwrap();
    assert_eq!(ext, expected);
    assert_eq!(ext.to_string(), r#"{"accepted":["gzip","br","deflate","zstd"],"header":"Content-Encoding","recommended":true}"#);
}
