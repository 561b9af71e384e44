//! Taking a relay's filing into canopy: where it lands, and which path it
//! takes there.
//!
//! A relay's identity names its cluster, so a filing is placed from what
//! canopy knows rather than from anything the relay says. Identifiers are the
//! 128 bits of a UUID.

use vstd::prelude::*;
use crate::relay::protocol::{Filing, FilingTarget, TargetV};

verus! {

/// Where a filing lands, once the coordinates the relay named have been
/// resolved against what canopy knows.
#[derive(Debug, Clone, Copy, PartialEq, Eq, Structural)]
pub enum Placement {
    /// The application an instance coordinate names.
    Application(u128),
    /// The group a namespace names: its applications at one rank.
    Group(u128),
    /// The cluster the relay serves. A cluster is its own check target: its
    /// substrate checks are read on the cluster, not on the applications
    /// scheduled across it.
    Cluster(u128),
}

/// The check-state scope a filing is recorded at.
#[derive(Debug, Clone, Copy, PartialEq, Eq, Structural)]
pub enum Scope {
    Application(u128),
    Group(u128),
    Cluster(u128),
}

impl Placement {
    /// The check-state scope this placement files at.
    pub fn scope(&self) -> (s: Scope)
        ensures
            s == match *self {
                Placement::Application(id) => Scope::Application(id),
                Placement::Group(id) => Scope::Group(id),
                Placement::Cluster(id) => Scope::Cluster(id),
            },
    {
        match self {
            Placement::Application(id) => Scope::Application(*id),
            Placement::Group(id) => Scope::Group(*id),
            Placement::Cluster(id) => Scope::Cluster(*id),
        }
    }
}

/// Where a filing against `target` lands, given the registered cluster the
/// relay's identity names, if any: a relay no registered cluster accounts
/// for places nothing, the cluster target is the cluster itself, and a
/// namespace or an instance is not placed until the applications to
/// correlate it against exist.
pub open spec fn resolve_spec(cluster: Option<u128>, target: TargetV) -> Option<Placement> {
    match cluster {
        None => None,
        Some(id) => match target {
            TargetV::Cluster => Some(Placement::Cluster(id)),
            _ => None,
        },
    }
}

/// Resolve the coordinates a relay named to somewhere in canopy.
pub fn resolve(cluster: Option<u128>, target: &FilingTarget) -> (p: Option<Placement>)
    ensures
        p == resolve_spec(cluster, target@),
{
    let id = match cluster {
        Some(id) => id,
        None => {
            return None;
        },
    };
    match target {
        FilingTarget::Cluster => Some(Placement::Cluster(id)),
        // The namespace-to-group and instance-to-application correlations
        // arrive with the harvest path; until a cluster application exists
        // there is nothing to resolve these against.
        FilingTarget::Namespace { .. } | FilingTarget::Instance { .. } => None,
    }
}

/// Why a filing could not be taken in.
#[derive(Debug, Clone, Copy, PartialEq, Eq, Structural)]
pub enum IngestError {
    /// A harvest describes one application, so it cannot be filed at a
    /// coarser grain.
    HarvestMisplaced,
    /// Harvest ingestion awaits the push ingestion's shared seam.
    HarvestNotWired,
}

impl IngestError {
    /// What the error says.
    pub fn message(&self) -> (m: &'static str)
        ensures
            m@ == match *self {
                IngestError::HarvestMisplaced => "a harvest filing describes one application, so it cannot be filed at a coarser grain"@,
                IngestError::HarvestNotWired => "harvest ingestion is not wired yet: it awaits the shared push-ingestion seam"@,
            },
    {
        match self {
            IngestError::HarvestMisplaced => "a harvest filing describes one application, so it cannot be filed at a coarser grain",
            IngestError::HarvestNotWired => "harvest ingestion is not wired yet: it awaits the shared push-ingestion seam",
        }
    }
}

/// Which path a placed filing takes: a substrate filing goes through canopy's
/// own filing path at its scope, carrying the relay as provenance only where
/// the scope is an application; a harvest is refused until its ingestion is
/// wired, and refused outright at anything coarser than one application.
pub open spec fn route_spec(harvest: bool, placement: Placement, relay: u128) -> Result<(Scope, Option<u128>), IngestError> {
    if harvest {
        match placement {
            Placement::Application(_) => Err(IngestError::HarvestNotWired),
            _ => Err(IngestError::HarvestMisplaced),
        }
    } else {
        let scope = match placement {
            Placement::Application(id) => Scope::Application(id),
            Placement::Group(id) => Scope::Group(id),
            Placement::Cluster(id) => Scope::Cluster(id),
        };
        Ok((scope, match scope {
            Scope::Application(_) => Some(relay),
            _ => None,
        }))
    }
}

/// Which path a placed filing takes, and the scope and provenance it is
/// filed with.
pub fn route(filing: &Filing, placement: Placement, relay: u128) -> (r: Result<(Scope, Option<u128>), IngestError>)
    ensures
        r == route_spec(filing is Harvest, placement, relay),
{
    match filing {
        Filing::Harvest => match placement {
            Placement::Application(_) => Err(IngestError::HarvestNotWired),
            _ => Err(IngestError::HarvestMisplaced),
        },
        Filing::Substrate(_) => {
            let scope = placement.scope();
            let device = match scope {
                Scope::Application(_) => Some(relay),
                _ => None,
            };
            Ok((scope, device))
        },
    }
}

} // verus!
