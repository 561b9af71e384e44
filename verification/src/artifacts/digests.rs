//! Digests of artifact bytes, and the Subresource Integrity spelling every
//! interface carries them in.

use base64::Engine as _;
use sha2::Digest as _;
use vstd::prelude::*;
use crate::text::{debug_quoted, occurs_at, is_white_space, push_str, quoted, strip_prefix, trim, trim_spec, trim_start_spec, trim_end_spec};
use super::ArtifactError;

verus! {

/// What SHA-256 makes of these bytes.
pub uninterp spec fn sha256_of(bytes: Seq<u8>) -> Seq<u8>;

/// `sha2::Sha256::digest`: the SHA-256 of the bytes, whose output is 32 bytes
/// long. Nothing else is claimed of the hash.
#[verifier::external_body]
fn sha256(bytes: &[u8]) -> (r: Vec<u8>)
    ensures
        r@ == sha256_of(bytes@),
        r@.len() == 32,
{
    sha2::Sha256::digest(bytes).to_vec()
}

/// The digest Canopy records and verifies bytes against.
pub fn digest_of(bytes: &[u8]) -> (r: Vec<u8>)
    ensures
        r@ == sha256_of(bytes@),
        r@.len() == 32,
{
    sha256(bytes)
}

/// A character of the standard base64 alphabet, padding included.
pub open spec fn base64_char(c: char) -> bool {
    ||| 'A' <= c <= 'Z'
    ||| 'a' <= c <= 'z'
    ||| '0' <= c <= '9'
    ||| c == '+'
    ||| c == '/'
    ||| c == '='
}

/// The standard, padded base64 spelling of these bytes.
pub uninterp spec fn base64_text(bytes: Seq<u8>) -> Seq<char>;

/// What the standard, padded base64 decoder makes of this text: the bytes, or
/// nothing where the text is no such spelling.
pub uninterp spec fn base64_decoded(text: Seq<char>) -> Option<Seq<u8>>;

/// `base64::engine::general_purpose::STANDARD.encode`: the bytes spelled in
/// the standard alphabet with padding, so every character written is one of
/// that alphabet.
#[verifier::external_body]
fn base64_encode(bytes: &[u8]) -> (r: String)
    ensures
        r@ == base64_text(bytes@),
        forall|i: int| 0 <= i < r@.len() ==> base64_char(#[trigger] r@[i]),
{
    base64::engine::general_purpose::STANDARD.encode(bytes)
}

/// `base64::engine::general_purpose::STANDARD.decode`: the bytes the text
/// spells, or `None` where it spells none. Text that the same engine's
/// `encode` wrote for some bytes decodes back to those bytes.
#[verifier::external_body]
fn base64_decode(text: &str) -> (r: Option<Vec<u8>>)
    ensures
        r matches Some(v) ==> base64_decoded(text@) == Some(v@),
        r is None ==> base64_decoded(text@) is None,
        forall|b: Seq<u8>| #[trigger] base64_text(b) == text@ ==> r.is_some() && r.unwrap()@ == b,
{
    base64::engine::general_purpose::STANDARD.decode(text).ok()
}

/// A digest as Subresource Integrity writes it.
pub open spec fn sri_spec(digest: Seq<u8>) -> Seq<char> {
    "sha256-"@ + base64_text(digest)
}

/// Text with no whitespace at either end trims to itself.
proof fn lemma_trim_keeps(s: Seq<char>)
    requires
        s.len() > 0,
        !is_white_space(s[0]),
        !is_white_space(s.last()),
    ensures
        trim_spec(s) == s,
{
    assert(trim_start_spec(s) == s);
    assert(trim_end_spec(s) == s);
}

/// A digest as Subresource Integrity writes it, which is the form every
/// interface carries it in. The spelling has no whitespace to trim.
pub fn sri(digest: &[u8]) -> (s: String)
    ensures
        s@ == sri_spec(digest@),
        trim_spec(s@) == s@,
{
    let encoded = base64_encode(digest);
    let mut s = String::from_str("sha256-");
    push_str(&mut s, encoded.as_str());
    proof {
        reveal_strlit("sha256-");
        assert(s@[0] == 's');
        if encoded@.len() > 0 {
            assert(s@.last() == encoded@[encoded@.len() - 1]);
            assert(base64_char(encoded@[encoded@.len() - 1]));
        } else {
            assert(s@.last() == '-');
        }
        lemma_trim_keeps(s@);
    }
    s
}

/// The digest an SRI value names: the trimmed text after `sha256-`, decoded,
/// where it decodes to the 32 bytes of a SHA-256.
pub open spec fn sri_digest(value: Seq<char>) -> Option<Seq<u8>> {
    let t = trim_spec(value);
    let p = "sha256-"@;
    if t.len() >= p.len() && t.subrange(0, p.len() as int) == p {
        match base64_decoded(t.subrange(p.len() as int, t.len() as int)) {
            Some(d) => if d.len() == 32 {
                Some(d)
            } else {
                None
            },
            None => None,
        }
    } else {
        None
    }
}

/// The refusal of a value that names no digest.
pub open spec fn sri_refusal(value: Seq<char>) -> Seq<char> {
    debug_quoted(value) + " is not a sha256 SRI digest"@
}

/// The digest an SRI string names, refusing anything that cannot be one.
///
/// Whatever `sri` wrote for a SHA-256 digest reads back as that digest.
pub fn parse_sri(value: &str) -> (r: Result<Vec<u8>, ArtifactError>)
    ensures
        match r {
            Ok(d) => sri_digest(value@) == Some(d@),
            Err(e) => sri_digest(value@) is None && (e matches ArtifactError::BadRequest(m) && m@
                == sri_refusal(value@)),
        },
        forall|d: Seq<u8>|
            d.len() == 32 && #[trigger] sri_spec(d) == trim_spec(value@) ==> (r matches Ok(x) && x@
                == d),
{
    let mut refusal = quoted(value);
    push_str(&mut refusal, " is not a sha256 SRI digest");
    let trimmed = trim(value);
    proof {
        reveal_strlit(" is not a sha256 SRI digest");
        reveal_strlit("sha256-");
    }
    let encoded = match strip_prefix(trimmed, "sha256-") {
        Some(e) => e,
        None => {
            assert forall|d: Seq<u8>| d.len() == 32 && #[trigger] sri_spec(d) == trim_spec(
                value@,
            ) implies false by {
                assert("sha256-"@.len() == 7);
                assert(sri_spec(d).subrange(0, 7) =~= "sha256-"@);
                assert(occurs_at(trimmed@, "sha256-"@, 0));
            }
            return Err(ArtifactError::BadRequest(refusal));
        },
    };
    proof {
        assert forall|d: Seq<u8>| d.len() == 32 && #[trigger] sri_spec(d) == trim_spec(value@) implies base64_text(d) == encoded@ by {
            assert(encoded@ =~= sri_spec(d).subrange(7, sri_spec(d).len() as int));
        }
    }
    let digest = match base64_decode(encoded.as_str()) {
        Some(d) => d,
        None => {
            return Err(ArtifactError::BadRequest(refusal));
        },
    };
    if digest.len() != 32 {
        return Err(ArtifactError::BadRequest(refusal));
    }
    Ok(digest)
}

} // verus!
