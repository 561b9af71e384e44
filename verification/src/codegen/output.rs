//! What the generator writes around the emitted types.

use vstd::prelude::*;
use crate::text::{debug_quoted, push_str, quoted, str_eq};
use super::envelope::texts_view;

verus! {

/// The first schema folded to accept further keys whose emitted type was not
/// given a place to carry them.
pub open spec fn uncarried(open: Seq<Seq<char>>, carried: Seq<Seq<char>>) -> Option<Seq<char>>
    decreases open.len(),
{
    if open.len() == 0 {
        None
    } else if !carried.contains(open[0]) {
        Some(open[0])
    } else {
        uncarried(open.drop_first(), carried)
    }
}

/// Whether the text is among these.
fn listed(names: &Vec<String>, name: &str) -> (r: bool)
    ensures
        r == texts_view(names@).contains(name@),
{
    let mut i: usize = 0;
    while i < names.len()
        invariant
            i <= names@.len(),
            forall|m: int| 0 <= m < i ==> names@[m]@ != name@,
        decreases names@.len() - i,
    {
        if str_eq(names[i].as_str(), name) {
            assert(texts_view(names@)[i as int] == name@);
            return true;
        }
        i = i + 1;
    }
    proof {
        if texts_view(names@).contains(name@) {
            let m = choose|m: int| 0 <= m < texts_view(names@).len() && texts_view(names@)[m] == name@;
            assert(names@[m]@ == name@);
        }
    }
    false
}

/// Whether a generated struct with named fields takes the map field that
/// carries a folded schema's further keys: it is one of the folded schemas,
/// and none of its fields is called `extra` already.
pub fn takes_further_keys(name: &str, folded: &Vec<String>, fields: &Vec<String>) -> (r: bool)
    ensures
        r == (texts_view(folded@).contains(name@) && !texts_view(fields@).contains("extra"@)),
{
    listed(folded, name) && !listed(fields, "extra")
}

/// Refuse generation where a schema accepting further keys was emitted as a
/// type with nowhere to carry them, so a consumer could neither send nor read
/// them.
pub fn check_carried(open: &Vec<String>, carried: &Vec<String>) -> (r: Result<(), String>)
    ensures
        match uncarried(texts_view(open@), texts_view(carried@)) {
            None => r is Ok,
            Some(name) => (r matches Err(e) && e@ == name
                + " accepts further keys but its generated type has nowhere to carry them, so a consumer could neither send nor read them"@),
        },
{
    let mut i: usize = 0;
    assert(texts_view(open@).skip(0) =~= texts_view(open@));
    while i < open.len()
        invariant
            i <= open@.len(),
            uncarried(texts_view(open@), texts_view(carried@)) == uncarried(texts_view(open@).skip(i as int), texts_view(carried@)),
        decreases open@.len() - i,
    {
        proof {
            assert(texts_view(open@).skip(i as int).drop_first() =~= texts_view(open@).skip(i + 1));
            assert(texts_view(open@).skip(i as int)[0] == open@[i as int]@);
        }
        if !listed(carried, open[i].as_str()) {
            let mut e = open[i].clone();
            push_str(
                &mut e,
                " accepts further keys but its generated type has nowhere to carry them, so a consumer could neither send nor read them",
            );
            return Err(e);
        }
        i = i + 1;
    }
    proof {
        assert(texts_view(open@).skip(i as int).len() == 0);
    }
    Ok(())
}

/// The constants the emitted crate opens with: the document's version and
/// its digest, each written as a quoted string.
pub open spec fn constants_text(version: Seq<char>, digest: Seq<char>) -> Seq<char> {
    "/// Version of the OpenAPI document this source was generated from, which is also\n/// this crate's own version.\npub const OPENAPI_VERSION: &str = "@
        + debug_quoted(version)
        + ";\n\n/// BLAKE3 digest of that document, so a document that changed without the\n/// version moving with it can be told from one that did not.\npub const OPENAPI_BLAKE3: &str = "@
        + debug_quoted(digest) + ";\n\n"@
}

/// The constants the emitted crate opens with.
pub fn constants(version: &str, digest: &str) -> (s: String)
    ensures
        s@ == constants_text(version@, digest@),
{
    let mut s = String::from_str(
        "/// Version of the OpenAPI document this source was generated from, which is also\n/// this crate's own version.\npub const OPENAPI_VERSION: &str = ",
    );
    let v = quoted(version);
    push_str(&mut s, v.as_str());
    push_str(
        &mut s,
        ";\n\n/// BLAKE3 digest of that document, so a document that changed without the\n/// version moving with it can be told from one that did not.\npub const OPENAPI_BLAKE3: &str = ",
    );
    let d = quoted(digest);
    push_str(&mut s, d.as_str());
    push_str(&mut s, ";\n\n");
    s
}

/// The lines every emitted file opens with.
pub fn banner() -> (s: &'static str)
    ensures
        s@ == "// @generated by canopy-api-codegen from crates/public-server/openapi.json.\n// Run `just gen-api` to refresh; do not edit by hand.\n\n"@,
{
    "// @generated by canopy-api-codegen from crates/public-server/openapi.json.\n// Run `just gen-api` to refresh; do not edit by hand.\n\n"
}

/// The emitted source: the opening lines, the constants, the wire types as
/// laid out, a blank line, and the client's methods.
pub open spec fn emitted_text(version: Seq<char>, digest: Seq<char>, types: Seq<char>, methods: Seq<char>) -> Seq<char> {
    "// @generated by canopy-api-codegen from crates/public-server/openapi.json.\n// Run `just gen-api` to refresh; do not edit by hand.\n\n"@
        + constants_text(version, digest) + types + "\n"@ + methods
}

/// The emitted source.
pub fn emitted(version: &str, digest: &str, types: &str, methods: &str) -> (s: String)
    ensures
        s@ == emitted_text(version@, digest@, types@, methods@),
{
    let mut s = String::from_str(banner());
    let c = constants(version, digest);
    push_str(&mut s, c.as_str());
    push_str(&mut s, types);
    push_str(&mut s, "\n");
    push_str(&mut s, methods);
    proof {
        reveal_strlit("\n");
    }
    s
}

} // verus!
