//! The cluster registry: registering a cluster, confirming its relay is
//! answering, and what an operator sees of each.
//!
//! A registration that has not yet been confirmed is a draft: a row carrying
//! the cluster's name and its relay's identity, with no registration time.
//! Identifiers are the 128 bits of a UUID; moments are nanoseconds since the
//! Unix epoch.

use vstd::prelude::*;
use crate::text::{push_str, trim, trim_spec};

verus! {

/// How recently a relay must have answered to read as connected now: what
/// registration turns on.
pub const REGISTRATION_FRESHNESS: i128 = 90_000_000_000;

/// A Kubernetes cluster in the registry.
#[derive(Debug, Clone)]
pub struct KubernetesCluster {
    pub id: u128,
    /// What an operator sees in the host picker.
    pub name: String,
    /// The relay's identity, kept as the relay is re-issued a credential.
    pub relay_identity_id: u128,
    /// Unset while a draft; set the moment the relay first connects and
    /// answers.
    pub registered_at: Option<i128>,
    /// When canopy last had a ping answered by this cluster's relay. Never
    /// cleared on disconnect.
    pub last_answered_at: Option<i128>,
}

impl KubernetesCluster {
    /// Whether the cluster is registered rather than a draft.
    pub fn is_registered(&self) -> (r: bool)
        ensures
            r == self.registered_at is Some,
    {
        self.registered_at.is_some()
    }
}

/// A cluster in the registry, as an operator sees it.
#[derive(Debug, Clone)]
pub struct ClusterView {
    pub id: u128,
    pub name: String,
    pub relay_identity_id: u128,
    /// Whether the registration has been confirmed. A draft is `false`.
    pub registered: bool,
    pub registered_at: Option<i128>,
    pub last_answered_at: Option<i128>,
    /// Whether the relay has answered recently enough to read as connected
    /// right now.
    pub answering: bool,
}

/// Whether a relay that last answered at `at` reads as answering at `now`:
/// it answered less than the freshness away, either side of now.
pub open spec fn answering_at(last: Option<i128>, now: i128) -> bool {
    match last {
        Some(at) => -REGISTRATION_FRESHNESS < now - at < REGISTRATION_FRESHNESS,
        None => false,
    }
}

impl ClusterView {
    /// What an operator sees of a cluster at `now`.
    pub fn of(cluster: KubernetesCluster, now: i128) -> (v: Self)
        requires
            crate::session::in_range(now as int),
            cluster.last_answered_at matches Some(at) ==> crate::session::in_range(at as int),
        ensures
            v.id == cluster.id,
            v.name == cluster.name,
            v.relay_identity_id == cluster.relay_identity_id,
            v.registered == cluster.registered_at is Some,
            v.registered_at == cluster.registered_at,
            v.last_answered_at == cluster.last_answered_at,
            v.answering == answering_at(cluster.last_answered_at, now),
    {
        let answering = match cluster.last_answered_at {
            Some(at) => {
                let gap = now - at;
                -REGISTRATION_FRESHNESS < gap && gap < REGISTRATION_FRESHNESS
            },
            None => false,
        };
        ClusterView {
            id: cluster.id,
            name: cluster.name,
            relay_identity_id: cluster.relay_identity_id,
            registered: cluster.registered_at.is_some(),
            registered_at: cluster.registered_at,
            last_answered_at: cluster.last_answered_at,
            answering,
        }
    }
}

/// Begin registering a cluster: name it and mint its relay's credential.
#[derive(Debug, Clone)]
pub struct RegisterArgs {
    /// What to call the cluster in the host picker.
    pub name: String,
}

/// Identify one cluster.
#[derive(Debug, Clone, Copy)]
pub struct ClusterIdArgs {
    /// The cluster to act on.
    pub id: u128,
}

/// The name a registration gives the cluster, trimmed, or why it is refused:
/// a cluster needs a name.
pub open spec fn registration_name_spec(name: Seq<char>) -> Result<Seq<char>, Seq<char>> {
    if trim_spec(name).len() == 0 {
        Err("a cluster needs a name"@)
    } else {
        Ok(trim_spec(name))
    }
}

impl RegisterArgs {
    /// The name the registration gives the cluster, or why it is refused.
    pub fn name(&self) -> (r: Result<String, String>)
        ensures
            match r {
                Ok(n) => registration_name_spec(self.name@) == Ok::<Seq<char>, Seq<char>>(n@),
                Err(e) => registration_name_spec(self.name@) == Err::<Seq<char>, Seq<char>>(e@),
            },
    {
        let name = trim(self.name.as_str());
        if name.unicode_len() == 0 {
            return Err(String::from_str("a cluster needs a name"));
        }
        Ok(String::from_str(name))
    }
}

/// What the relay minted for a cluster is called: its name and `relay`.
pub fn relay_label(name: &str) -> (r: String)
    ensures
        r@ == name@ + " relay"@,
{
    let mut r = String::from_str(name);
    push_str(&mut r, " relay");
    r
}

/// What confirming a registration does.
#[derive(Debug, Clone, Copy, PartialEq, Eq, Structural)]
pub enum Confirmation {
    /// The cluster is registered already, and is returned unchanged.
    AlreadyRegistered,
    /// The relay is not answering, so the draft stays a draft.
    NotAnswering,
    /// The relay is answering, so the cluster is registered now.
    Register,
}

/// What confirming a registration does, from what the operator sees of it:
/// canopy confirms the relay is connected and answering before the cluster is
/// registered, and an already-registered cluster is returned unchanged.
pub fn confirmation(view: &ClusterView) -> (c: Confirmation)
    ensures
        c == if view.registered {
            Confirmation::AlreadyRegistered
        } else if !view.answering {
            Confirmation::NotAnswering
        } else {
            Confirmation::Register
        },
{
    if view.registered {
        Confirmation::AlreadyRegistered
    } else if !view.answering {
        Confirmation::NotAnswering
    } else {
        Confirmation::Register
    }
}

/// The registry as two lists: the registered clusters, and the drafts an
/// operator has begun but not finished.
#[derive(Debug, Clone)]
pub struct ClusterList {
    /// The registered clusters, ordered by name.
    pub registered: Vec<ClusterView>,
    /// The in-progress drafts, newest first.
    pub drafts: Vec<ClusterView>,
}

/// A relay reads as answering only on an answer less than ninety seconds away
/// from now, either side: one that never answered, or last answered ninety
/// seconds or more before (or after) now, does not, so a draft whose relay has
/// gone quiet is not registered.
pub proof fn law_only_a_recent_answer_counts(last: Option<i128>, now: i128)
    ensures
        answering_at(last, now) <==> (last is Some && now - last->0 < 90_000_000_000 && last->0 - now
            < 90_000_000_000),
{
}

} // verus!
