//! A registered cluster as a host in the fleet: what its page presents and
//! what an admin changes there.

use vstd::prelude::*;
use crate::text::{push_str, trim, trim_spec};
use crate::artifacts::registration::{uuid_string, uuid_text};
use super::registry::KubernetesCluster;

verus! {

/// Request body identifying a cluster.
#[derive(Debug, Clone, Copy)]
pub struct ClusterIdArgs {
    /// The cluster to read.
    pub cluster_id: u128,
}

/// A cluster, as its page presents it.
#[derive(Debug, Clone)]
pub struct Cluster {
    pub id: u128,
    /// What an operator calls the cluster.
    pub name: String,
    /// How long, in seconds, the cluster may go unheard before it reads as
    /// unreachable.
    pub alert_when_down_for: i64,
}

/// An application a cluster hosts, as a row in the cluster's list. Its kind,
/// tier, reachability and health are as the wire spells them.
#[derive(Debug, Clone)]
pub struct ClusterApplication {
    pub id: u128,
    /// What the application is called within its group.
    pub name: Option<String>,
    /// What the application is.
    pub kind: String,
    /// The application's environment tier.
    pub rank: Option<String>,
    /// Where the application answers, or empty when it has no address.
    pub display_host: String,
    /// The group the application belongs to, taken from its namespace.
    pub group_id: Option<u128>,
    /// That group's name.
    pub group_name: Option<String>,
    /// Whether the application is currently reporting, on its own threshold.
    pub up: String,
    /// The application's own health.
    pub health: String,
}

/// What an admin changes about a cluster from its page.
#[derive(Debug, Clone)]
pub struct ClusterUpdateArgs {
    /// The cluster to change.
    pub cluster_id: u128,
    /// A new name. Omit to leave it.
    pub name: Option<String>,
    /// How long, in seconds, the cluster may go unheard before it reads as
    /// unreachable. Omit to leave it.
    pub alert_when_down_for: Option<i64>,
}

/// The new name an update gives, trimmed, or why it is refused: a cluster
/// needs a name.
pub open spec fn rename_spec(name: Option<Seq<char>>) -> Result<Option<Seq<char>>, Seq<char>> {
    match name {
        None => Ok(None),
        Some(n) => if trim_spec(n).len() == 0 {
            Err("a cluster needs a name"@)
        } else {
            Ok(Some(trim_spec(n)))
        },
    }
}

impl ClusterUpdateArgs {
    /// The new name the update gives, if it gives one, or why it is refused.
    pub fn rename(&self) -> (r: Result<Option<String>, String>)
        ensures
            match r {
                Ok(n) => rename_spec(match self.name { Some(s) => Some(s@), None => None }) == Ok::<Option<Seq<char>>, Seq<char>>(
                    match n { Some(s) => Some(s@), None => None },
                ),
                Err(e) => rename_spec(match self.name { Some(s) => Some(s@), None => None }) == Err::<Option<Seq<char>>, Seq<char>>(e@),
            },
    {
        match &self.name {
            None => Ok(None),
            Some(n) => {
                let name = trim(n.as_str());
                if name.unicode_len() == 0 {
                    Err(String::from_str("a cluster needs a name"))
                } else {
                    Ok(Some(String::from_str(name)))
                }
            },
        }
    }
}

/// The registered cluster by this id, a draft reading as absent: refused as
/// not found, naming the identifier.
pub fn registered(cluster: KubernetesCluster) -> (r: Result<KubernetesCluster, String>)
    ensures
        cluster.registered_at is Some ==> r == Ok::<KubernetesCluster, String>(cluster),
        cluster.registered_at is None ==> (r matches Err(m) && m@ == "no registered cluster "@ + uuid_text(cluster.id)),
{
    if cluster.is_registered() {
        return Ok(cluster);
    }
    let mut m = String::from_str("no registered cluster ");
    let id = uuid_string(cluster.id);
    push_str(&mut m, id.as_str());
    Err(m)
}

} // verus!
