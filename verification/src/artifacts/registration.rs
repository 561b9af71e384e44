//! Registering artifacts: what a releaser's and a schema builder's
//! registrations are refused for, what they register, and how a registered
//! artifact is offered.

use vstd::prelude::*;
use crate::text::{push_str, str_eq};
use super::{Artifact, ArtifactError, MAX_HELD_ARTIFACT_BYTES, NewArtifact};
use super::digests::{digest_of, parse_sri, sha256_of, sri, sri_digest, sri_refusal, sri_spec};
use super::matching::{SemVer, parse_version, parsed_version, range_parses, range_valid};

verus! {

/// The digest an optional SRI value names: none where no value is given.
pub fn parse_sri_opt(value: Option<&str>) -> (r: Result<Option<Vec<u8>>, ArtifactError>)
    ensures
        value is None ==> (r matches Ok(d) && d is None),
        value is Some ==> match sri_digest(value.unwrap()@) {
            Some(d) => (r matches Ok(x) && x is Some && x.unwrap()@ == d),
            None => (r matches Err(ArtifactError::BadRequest(m)) && m@ == sri_refusal(value.unwrap()@)),
        },
{
    match value {
        None => Ok(None),
        Some(v) => match parse_sri(v) {
            Ok(d) => Ok(Some(d)),
            Err(e) => Err(e),
        },
    }
}

/// What a releaser's registration names its artifact's version by: an exact
/// version, or a range pattern.
#[derive(Debug)]
pub enum VersionTarget {
    Exact(SemVer),
    Range(String),
}

/// What a path's version names: an exact version where it spells one, else
/// a range where it spells one.
pub open spec fn target_of(version: Seq<char>) -> Option<Result<(u64, u64, u64), Seq<char>>> {
    match parsed_version(version) {
        Some(n) => Some(Ok(n)),
        None => if range_parses(version) {
            Some(Err(version))
        } else {
            None
        },
    }
}

/// Settle a releaser's registration before anything is written: a releaser
/// carries no authorisation for any group, the digest it records must be one,
/// and the version must be an exact version or a range.
pub fn releaser_target(group: Option<u128>, digest: Option<&str>, version: &str) -> (r: Result<(Option<Vec<u8>>, VersionTarget), ArtifactError>)
    ensures
        group is Some ==> (r matches Err(ArtifactError::NotPermitted(m)) && m@ == "authorisation for the named group"@),
        group is None && digest is Some && sri_digest(digest.unwrap()@) is None ==> (r matches Err(ArtifactError::BadRequest(m)) && m@ == sri_refusal(digest.unwrap()@)),
        group is None && (digest is None || sri_digest(digest.unwrap()@) is Some) && target_of(version@) is None ==> (r matches Err(ArtifactError::Invalid(m)) && m@ == "Invalid version or version range"@),
        r matches Ok((d, t)) ==> group is None && match digest {
            None => d is None,
            Some(v) => d is Some && sri_digest(v@) == Some(d.unwrap()@),
        } && match t {
            VersionTarget::Exact(n) => target_of(version@) == Some(Ok::<(u64, u64, u64), Seq<char>>((n.major, n.minor, n.patch))),
            VersionTarget::Range(p) => target_of(version@) == Some(Err::<(u64, u64, u64), Seq<char>>(p@)),
        },
        r is Err ==> group is Some || (digest is Some && sri_digest(digest.unwrap()@) is None) || target_of(version@) is None,
{
    if group.is_some() {
        return Err(ArtifactError::NotPermitted(String::from_str("authorisation for the named group")));
    }
    let d = match parse_sri_opt(digest) {
        Ok(d) => d,
        Err(e) => {
            return Err(e);
        },
    };
    match parse_version(version) {
        Some(v) => Ok((d, VersionTarget::Exact(v))),
        None => if range_valid(version) {
            Ok((d, VersionTarget::Range(String::from_str(version))))
        } else {
            Err(ArtifactError::Invalid(String::from_str("Invalid version or version range")))
        },
    }
}

/// The version a releaser's registration names where Canopy does not hold it
/// yet: written as a draft so the artifact has something to attach to, with
/// publishing left a separate step.
#[derive(Debug)]
pub struct DraftVersion {
    pub major: u64,
    pub minor: u64,
    pub patch: u64,
    /// Empty until the release is written up.
    pub changelog: String,
    /// Whether the version is published; a draft is not.
    pub published: bool,
    /// The device whose registration drafted it.
    pub device_id: Option<u128>,
}

/// The draft of an exact version a registration names, by the registering
/// device.
pub fn draft_version(version: SemVer, device_id: u128) -> (d: DraftVersion)
    ensures
        d.major == version.major,
        d.minor == version.minor,
        d.patch == version.patch,
        d.changelog@ == Seq::<char>::empty(),
        !d.published,
        d.device_id == Some(device_id),
{
    DraftVersion {
        major: version.major,
        minor: version.minor,
        patch: version.patch,
        changelog: String::new(),
        published: false,
        device_id: Some(device_id),
    }
}

/// The only artifact type a schema builder may register.
pub fn reporting_schema_type() -> (s: &'static str)
    ensures
        s@ == "reporting-schema"@,
{
    "reporting-schema"
}

/// The refusal of an upload larger than Canopy holds.
pub open spec fn too_large() -> Seq<char> {
    "artifact is larger than the 33554432 byte limit"@
}

/// Settle a schema builder's upload before anything is written: it registers
/// a reporting schema, for a group its declaration builds, carrying bytes
/// within the limit, under a run that is not another's, for an exact version.
pub fn group_upload(
    artifact_type: &str,
    authorised: bool,
    body_len: usize,
    run_claimed_elsewhere: bool,
    version: &str,
) -> (r: Result<SemVer, ArtifactError>)
    ensures
        artifact_type@ != "reporting-schema"@ ==> (r matches Err(ArtifactError::NotPermitted(m)) && m@ == "a group-scoped artifact to be a reporting-schema"@),
        artifact_type@ == "reporting-schema"@ && !authorised ==> (r matches Err(ArtifactError::NotPermitted(m)) && m@ == "an enabled declaration building this group's artifacts"@),
        artifact_type@ == "reporting-schema"@ && authorised && body_len > MAX_HELD_ARTIFACT_BYTES ==> (r matches Err(ArtifactError::BadRequest(m)) && m@ == too_large()),
        artifact_type@ == "reporting-schema"@ && authorised && body_len == 0 ==> (r matches Err(ArtifactError::BadRequest(m)) && m@ == "a group-scoped artifact carries its bytes"@),
        artifact_type@ == "reporting-schema"@ && authorised && 0 < body_len <= MAX_HELD_ARTIFACT_BYTES && run_claimed_elsewhere ==> (r matches Err(ArtifactError::BadRequest(m)) && m@ == "the named run belongs to another consumer or group"@),
        artifact_type@ == "reporting-schema"@ && authorised && 0 < body_len <= MAX_HELD_ARTIFACT_BYTES && !run_claimed_elsewhere ==> match parsed_version(version@) {
            Some(n) => (r matches Ok(v) && (v.major, v.minor, v.patch) == n),
            None => (r matches Err(ArtifactError::BadRequest(m)) && m@ == "a reporting schema names an exact version"@),
        },
{
    if !str_eq(artifact_type, reporting_schema_type()) {
        return Err(ArtifactError::NotPermitted(String::from_str("a group-scoped artifact to be a reporting-schema")));
    }
    if !authorised {
        return Err(ArtifactError::NotPermitted(String::from_str("an enabled declaration building this group's artifacts")));
    }
    if body_len > MAX_HELD_ARTIFACT_BYTES {
        return Err(ArtifactError::BadRequest(String::from_str("artifact is larger than the 33554432 byte limit")));
    }
    if body_len == 0 {
        return Err(ArtifactError::BadRequest(String::from_str("a group-scoped artifact carries its bytes")));
    }
    if run_claimed_elsewhere {
        return Err(ArtifactError::BadRequest(String::from_str("the named run belongs to another consumer or group")));
    }
    match parse_version(version) {
        Some(v) => Ok(v),
        None => Err(ArtifactError::BadRequest(String::from_str("a reporting schema names an exact version"))),
    }
}

/// The refusal of an upload naming a version Canopy does not hold.
pub fn missing_version(version: &str) -> (e: ArtifactError)
    ensures
        e matches ArtifactError::BadRequest(m) && m@ == "no version "@ + version@ + " to register a group-scoped artifact against"@,
{
    let mut m = String::from_str("no version ");
    push_str(&mut m, version);
    push_str(&mut m, " to register a group-scoped artifact against");
    ArtifactError::BadRequest(m)
}

/// The artifact a schema builder registers: held for the group, carrying its
/// bytes and the digest of the bytes Canopy actually took in.
pub fn group_artifact(
    group: u128,
    version_id: u128,
    artifact_type: String,
    platform: String,
    device_id: u128,
    body: Vec<u8>,
    content_type: Option<String>,
    run: Option<u128>,
) -> (a: NewArtifact)
    ensures
        a.version_id == Some(version_id),
        a.artifact_type == artifact_type,
        a.platform == platform,
        a.download_url is None,
        a.device_id == Some(device_id),
        a.version_range_pattern is None,
        a.group_id == Some(group),
        a.content == Some(body),
        a.content_type == content_type,
        a.digest is Some && a.digest.unwrap()@ == sha256_of(body@),
        a.run_id == run,
{
    let digest = digest_of(body.as_slice());
    NewArtifact {
        version_id: Some(version_id),
        artifact_type,
        platform,
        download_url: None,
        device_id: Some(device_id),
        version_range_pattern: None,
        group_id: Some(group),
        content: Some(body),
        content_type,
        digest: Some(digest),
        run_id: run,
    }
}

/// A hexadecimal digit, lowercase.
pub open spec fn hex_char(n: int) -> char {
    if n < 10 {
        (n + 0x30) as char
    } else {
        (n - 10 + 0x61) as char
    }
}

/// The lowest `count` hexadecimal digits of a number, most significant first.
pub open spec fn hex_digits(n: nat, count: nat) -> Seq<char>
    decreases count,
{
    if count == 0 {
        seq![]
    } else {
        hex_digits(n / 16, (count - 1) as nat).push(hex_char((n % 16) as int))
    }
}

/// A UUID written in its hyphenated lowercase form: 32 hexadecimal digits in
/// groups of 8, 4, 4, 4 and 12.
pub open spec fn uuid_text(id: u128) -> Seq<char> {
    let d = hex_digits(id as nat, 32);
    d.subrange(0, 8) + "-"@ + d.subrange(8, 12) + "-"@ + d.subrange(12, 16) + "-"@ + d.subrange(16, 20) + "-"@ + d.subrange(20, 32)
}

/// The lowest `count` hexadecimal digits of a number.
fn hex_digits_of(n: u128, count: usize) -> (r: Vec<char>)
    ensures
        r@ == hex_digits(n as nat, count as nat),
        r@.len() == count,
    decreases count,
{
    if count == 0 {
        Vec::new()
    } else {
        let mut v = hex_digits_of(n / 16, count - 1);
        let d = n % 16;
        let c: char = if d < 10 {
            ((d + 0x30) as u8) as char
        } else {
            ((d - 10 + 0x61) as u8) as char
        };
        v.push(c);
        v
    }
}

/// A UUID written in its hyphenated lowercase form.
pub fn uuid_string(id: u128) -> (s: String)
    ensures
        s@ == uuid_text(id),
{
    let d = hex_digits_of(id, 32);
    let mut s = String::new();
    let mut i: usize = 0;
    while i < 32
        invariant
            d@ == hex_digits(id as nat, 32),
            d@.len() == 32,
            i <= 32,
            s@ == (if i <= 8 {
                d@.subrange(0, i as int)
            } else if i <= 12 {
                d@.subrange(0, 8) + "-"@ + d@.subrange(8, i as int)
            } else if i <= 16 {
                d@.subrange(0, 8) + "-"@ + d@.subrange(8, 12) + "-"@ + d@.subrange(12, i as int)
            } else if i <= 20 {
                d@.subrange(0, 8) + "-"@ + d@.subrange(8, 12) + "-"@ + d@.subrange(12, 16) + "-"@ + d@.subrange(16, i as int)
            } else {
                d@.subrange(0, 8) + "-"@ + d@.subrange(8, 12) + "-"@ + d@.subrange(12, 16) + "-"@ + d@.subrange(16, 20) + "-"@ + d@.subrange(20, i as int)
            }),
        decreases 32 - i,
    {
        proof {
            reveal_strlit("-");
        }
        if i == 8 || i == 12 || i == 16 || i == 20 {
            crate::text::push_char(&mut s, '-');
        }
        crate::text::push_char(&mut s, d[i]);
        proof {
            let n = i + 1;
            assert(d@.subrange(0, n as int) =~= d@.subrange(0, i as int).push(d@[i as int]));
            if i >= 8 {
                assert(d@.subrange(8, n as int) =~= d@.subrange(8, i as int).push(d@[i as int]));
            }
            if i >= 12 {
                assert(d@.subrange(12, n as int) =~= d@.subrange(12, i as int).push(d@[i as int]));
            }
            if i >= 16 {
                assert(d@.subrange(16, n as int) =~= d@.subrange(16, i as int).push(d@[i as int]));
            }
            if i >= 20 {
                assert(d@.subrange(20, n as int) =~= d@.subrange(20, i as int).push(d@[i as int]));
            }
            assert(d@.subrange(8, 8) =~= Seq::<char>::empty());
            assert(d@.subrange(12, 12) =~= Seq::<char>::empty());
            assert(d@.subrange(16, 16) =~= Seq::<char>::empty());
            assert(d@.subrange(20, 20) =~= Seq::<char>::empty());
        }
        i = i + 1;
    }
    s
}

/// A registered artifact as it is offered to a caller: one URL to fetch it
/// from, and its digest as SRI.
#[derive(Debug)]
pub struct OfferedArtifact {
    pub id: u128,
    pub version_id: Option<u128>,
    pub artifact_type: String,
    pub platform: String,
    pub download_url: String,
    pub device_id: Option<u128>,
    pub version_range_pattern: Option<String>,
    pub digest: Option<String>,
}

/// Where an artifact Canopy holds is fetched from: Canopy's own download
/// endpoint for it.
pub open spec fn held_url(base: Seq<char>, version: Seq<char>, id: u128) -> Seq<char> {
    base + "/versions/"@ + version + "/artifacts/"@ + uuid_text(id) + "/download"@
}

impl OfferedArtifact {
    /// Present a stored row to a caller it is offered to: its own URL where
    /// it has one, else Canopy's download endpoint for it.
    pub fn offered(row: Artifact, base: &str, version: &str) -> (a: OfferedArtifact)
        ensures
            a.id == row.id,
            a.version_id == row.version_id,
            a.artifact_type == row.artifact_type,
            a.platform == row.platform,
            a.download_url@ == match row.download_url {
                Some(u) => u@,
                None => held_url(base@, version@, row.id),
            },
            a.device_id == row.device_id,
            a.version_range_pattern == row.version_range_pattern,
            match row.digest {
                Some(d) => a.digest is Some && a.digest.unwrap()@ == sri_spec(d@),
                None => a.digest is None,
            },
    {
        let download_url = match row.download_url {
            Some(u) => u,
            None => {
                let mut u = String::from_str(base);
                push_str(&mut u, "/versions/");
                push_str(&mut u, version);
                push_str(&mut u, "/artifacts/");
                let id_text = uuid_string(row.id);
                push_str(&mut u, id_text.as_str());
                push_str(&mut u, "/download");
                u
            },
        };
        let digest = match &row.digest {
            Some(d) => Some(sri(d.as_slice())),
            None => None,
        };
        OfferedArtifact {
            id: row.id,
            version_id: row.version_id,
            artifact_type: row.artifact_type,
            platform: row.platform,
            download_url,
            device_id: row.device_id,
            version_range_pattern: row.version_range_pattern,
            digest,
        }
    }
}

} // verus!
