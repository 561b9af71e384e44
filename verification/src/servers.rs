//! What the servers advertise about the requests they accept.

use vstd::prelude::*;
use crate::json::{Json, JsonV, array, entry, object, text};

verus! {

/// The encodings a request body may be sent in, which the servers decompress.
pub open spec fn accepted_encodings() -> Seq<Seq<char>> {
    seq!["gzip"@, "br"@, "deflate"@, "zstd"@]
}

/// The `x-request-compression` vendor extension: the encodings accepted, the
/// header that names one, and that compressing is recommended. Its members
/// are in key order, as serde_json keeps an object's.
pub open spec fn compression_extension() -> JsonV {
    JsonV::Object(seq![
        ("accepted"@, JsonV::Array(accepted_encodings().map_values(|e: Seq<char>| JsonV::Str(e)))),
        ("header"@, JsonV::Str("Content-Encoding"@)),
        ("recommended"@, JsonV::Bool(true)),
    ])
}

/// The value of the `x-request-compression` OpenAPI vendor extension, built
/// beside the list of encodings the servers accept.
pub fn request_compression_extension() -> (j: Json)
    ensures
        j@ == compression_extension(),
{
    let mut encodings: Vec<Json> = Vec::new();
    encodings.push(text("gzip"));
    encodings.push(text("br"));
    encodings.push(text("deflate"));
    encodings.push(text("zstd"));
    let accepted = array(encodings);
    let mut members: Vec<(String, Json)> = Vec::new();
    members.push(entry("accepted", accepted));
    members.push(entry("header", text("Content-Encoding")));
    members.push(entry("recommended", Json::Bool(true)));
    let j = object(members);
    proof {
        assert(crate::json::elements_view(encodings@) =~= accepted_encodings().map_values(|e: Seq<char>| JsonV::Str(e)));
        assert(crate::json::entries_view(members@) =~= seq![
            ("accepted"@, JsonV::Array(accepted_encodings().map_values(|e: Seq<char>| JsonV::Str(e)))),
            ("header"@, JsonV::Str("Content-Encoding"@)),
            ("recommended"@, JsonV::Bool(true)),
        ]);
    }
    j
}

} // verus!
