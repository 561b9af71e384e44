//! Downloadable artifacts: who is offered which, what a version offers, and
//! the digests their bytes are checked against.

pub mod digests;
pub mod matching;
pub mod newest;
pub mod registration;
pub mod store;
pub mod sweep;

use vstd::prelude::*;
use crate::text::{is_blank, trim_spec};

verus! {

/// A refusal of an artifact request.
#[derive(Debug)]
pub enum ArtifactError {
    /// The request itself is malformed.
    BadRequest(String),
    /// The request contradicts what is already registered.
    Conflict(String),
    /// The caller lacks what the request requires, named here.
    NotPermitted(String),
    /// The request names something that cannot be read.
    Invalid(String),
}

impl ArtifactError {
    /// The words the refusal is answered with.
    pub fn message(&self) -> (m: &String)
        ensures
            m@ == match self {
                ArtifactError::BadRequest(t) => t@,
                ArtifactError::Conflict(t) => t@,
                ArtifactError::NotPermitted(t) => t@,
                ArtifactError::Invalid(t) => t@,
            },
    {
        match self {
            ArtifactError::BadRequest(t) => t,
            ArtifactError::Conflict(t) => t,
            ArtifactError::NotPermitted(t) => t,
            ArtifactError::Invalid(t) => t,
        }
    }
}

/// Which artifacts a read may see.
#[derive(Debug, Clone, Copy, PartialEq, Eq, Structural)]
pub enum Scope {
    /// The unscoped artifacts alone: a read carrying no identity, or one whose
    /// caller has no group of its own.
    Unscoped,
    /// The unscoped artifacts plus the named group's.
    Group(u128),
    /// Every artifact, whatever group it belongs to. Operator views only.
    Fleet,
}

impl Scope {
    /// Whether an artifact of this group is in scope.
    pub open spec fn sees_spec(self, group: Option<u128>) -> bool {
        match self {
            Scope::Unscoped => group is None,
            Scope::Group(caller) => group is None || group == Some(caller),
            Scope::Fleet => true,
        }
    }

    /// What a caller resolving to this group may see.
    pub fn for_caller(group: Option<u128>) -> (s: Scope)
        ensures
            s == match group {
                Some(g) => Scope::Group(g),
                None => Scope::Unscoped,
            },
    {
        match group {
            Some(g) => Scope::Group(g),
            None => Scope::Unscoped,
        }
    }

    /// Whether an artifact of this group is in scope.
    pub fn sees(self, group: Option<u128>) -> (r: bool)
        ensures
            r == self.sees_spec(group),
    {
        match self {
            Scope::Unscoped => group.is_none(),
            Scope::Group(caller) => match group {
                Some(g) => g == caller,
                None => true,
            },
            Scope::Fleet => true,
        }
    }
}

/// Cap on the bytes Canopy will hold for one artifact.
pub const MAX_HELD_ARTIFACT_BYTES: usize = 33554432;

/// A downloadable artifact belonging to a release version. Identifiers are
/// UUIDs as integers, and `updated_at` is nanoseconds since the Unix epoch.
#[derive(Debug)]
pub struct Artifact {
    pub id: u128,
    /// The exact version this artifact belongs to; `None` for a range artifact.
    pub version_id: Option<u128>,
    pub artifact_type: String,
    pub platform: String,
    /// Where the artifact is fetched from; `None` for one Canopy holds.
    pub download_url: Option<String>,
    pub device_id: Option<u128>,
    /// The semver range a range artifact applies to.
    pub version_range_pattern: Option<String>,
    /// The group the artifact is for; `None` for every group.
    pub group_id: Option<u128>,
    pub content_type: Option<String>,
    /// SHA-256 of the bytes Canopy holds.
    pub digest: Option<Vec<u8>>,
    pub run_id: Option<u128>,
    pub updated_at: i128,
}

/// An artifact about to be registered.
#[derive(Debug)]
pub struct NewArtifact {
    pub version_id: Option<u128>,
    pub artifact_type: String,
    pub platform: String,
    pub download_url: Option<String>,
    pub device_id: Option<u128>,
    pub version_range_pattern: Option<String>,
    pub group_id: Option<u128>,
    pub content: Option<Vec<u8>>,
    pub content_type: Option<String>,
    pub digest: Option<Vec<u8>>,
    pub run_id: Option<u128>,
}

/// A URL that is blank is no location at all.
pub open spec fn location_spec(url: Option<String>) -> Option<String> {
    match url {
        Some(u) => if trim_spec(u@).len() == 0 {
            None
        } else {
            Some(u)
        },
        None => None,
    }
}

/// A blank URL is no location at all.
pub fn location(url: Option<String>) -> (r: Option<String>)
    ensures
        r == location_spec(url),
{
    match url {
        Some(u) => if is_blank(u.as_str()) {
            None
        } else {
            Some(u)
        },
        None => None,
    }
}

/// Why a registration cannot rest anywhere, given where it would rest.
pub open spec fn resting_refusal(a: NewArtifact, url: Option<String>) -> Option<Seq<char>> {
    if a.group_id is Some && url is Some {
        Some("an artifact Canopy holds has no download URL"@)
    } else if a.group_id is None && url is None {
        Some("an artifact needs a download URL or a group"@)
    } else if a.group_id is Some && (a.content is None || a.digest is None) {
        Some("a group-scoped artifact must carry its bytes and their digest"@)
    } else if a.group_id is None && (a.content_type is Some || a.content is Some) {
        Some("only a group-scoped artifact carries bytes"@)
    } else {
        None
    }
}

impl NewArtifact {
    /// Settle where this artifact rests, refusing a registration that names
    /// neither place or both: a blank URL counts as none, a held artifact
    /// carries its bytes and their digest, and only a held one carries bytes.
    pub fn resting(self) -> (r: Result<NewArtifact, ArtifactError>)
        ensures
            match resting_refusal(self, location_spec(self.download_url)) {
                Some(m) => (r matches Err(ArtifactError::BadRequest(t)) && t@ == m),
                None => r == Ok::<NewArtifact, ArtifactError>(
                    NewArtifact { download_url: location_spec(self.download_url), ..self },
                ),
            },
    {
        let mut a = self;
        let url = location(a.download_url);
        let held = a.group_id.is_some();
        let located = url.is_some();
        if held && located {
            return Err(ArtifactError::BadRequest(String::from_str("an artifact Canopy holds has no download URL")));
        }
        if !held && !located {
            return Err(ArtifactError::BadRequest(String::from_str("an artifact needs a download URL or a group")));
        }
        if held && (a.content.is_none() || a.digest.is_none()) {
            return Err(
                ArtifactError::BadRequest(String::from_str("a group-scoped artifact must carry its bytes and their digest")),
            );
        }
        if !held && (a.content_type.is_some() || a.content.is_some()) {
            return Err(ArtifactError::BadRequest(String::from_str("only a group-scoped artifact carries bytes")));
        }
        a.download_url = url;
        Ok(a)
    }
}

/// Why an artifact's location cannot change to this URL, given whether Canopy
/// holds its bytes.
pub open spec fn relocation_refusal(held: bool, url: Option<String>) -> Option<Seq<char>> {
    if held && url is Some {
        Some("an artifact Canopy holds has no download URL"@)
    } else if !held && url is None {
        Some("an artifact Canopy does not hold needs a download URL"@)
    } else {
        None
    }
}

/// The location an edit may give an artifact: none for one Canopy holds, and a
/// URL that is not blank for any other.
pub fn relocation(held: bool, new_url: Option<String>) -> (r: Result<Option<String>, ArtifactError>)
    ensures
        match relocation_refusal(held, location_spec(new_url)) {
            Some(m) => (r matches Err(ArtifactError::Conflict(t)) && t@ == m),
            None => r == Ok::<Option<String>, ArtifactError>(location_spec(new_url)),
        },
{
    let url = location(new_url);
    if held && url.is_some() {
        return Err(ArtifactError::Conflict(String::from_str("an artifact Canopy holds has no download URL")));
    }
    if !held && url.is_none() {
        return Err(ArtifactError::Conflict(String::from_str("an artifact Canopy does not hold needs a download URL")));
    }
    Ok(url)
}

} // verus!
