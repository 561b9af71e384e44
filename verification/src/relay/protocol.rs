//! What a relay files upward, as canopy reads it.

use vstd::prelude::*;
use crate::json::{Json, JsonV};
use crate::status::CheckResult;

verus! {

/// An optional JSON value, as what it holds.
pub open spec fn opt_json(d: Option<Json>) -> Option<JsonV> {
    match d {
        Some(j) => Some(j@),
        None => None,
    }
}

/// One instance of a substrate check.
#[derive(Debug)]
pub struct SubstrateInstance {
    pub label: String,
    pub observed: CheckResult,
    pub detail: Option<Json>,
}

/// An instance as what it holds.
pub struct InstanceV {
    pub label: Seq<char>,
    pub observed: CheckResult,
    pub detail: Option<JsonV>,
}

impl View for SubstrateInstance {
    type V = InstanceV;

    open spec fn view(&self) -> InstanceV {
        InstanceV { label: self.label@, observed: self.observed, detail: opt_json(self.detail) }
    }
}

/// A copy of an optional JSON value.
pub fn copy_detail(d: &Option<Json>) -> (r: Option<Json>)
    ensures
        opt_json(r) == opt_json(*d),
{
    match d {
        Some(j) => Some(j.copy()),
        None => None,
    }
}

impl SubstrateInstance {
    /// The one instance of a check that files a single one: it needs no label
    /// to tell it from others, so it carries none.
    pub fn only(observed: CheckResult, detail: Option<Json>) -> (i: Self)
        ensures
            i.label@ == Seq::<char>::empty(),
            i.observed == observed,
            i.detail == detail,
    {
        SubstrateInstance { label: String::new(), observed, detail }
    }

    /// A copy of the instance.
    pub fn copy(&self) -> (r: Self)
        ensures
            r@ == self@,
    {
        SubstrateInstance {
            label: self.label.clone(),
            observed: self.observed,
            detail: copy_detail(&self.detail),
        }
    }
}

/// The instances, each as what it holds.
pub open spec fn instances_view(v: Seq<SubstrateInstance>) -> Seq<InstanceV> {
    v.map_values(|i: SubstrateInstance| i@)
}

/// Copies of the instances, in order.
pub fn copy_instances(v: &Vec<SubstrateInstance>) -> (r: Vec<SubstrateInstance>)
    ensures
        instances_view(r@) == instances_view(v@),
{
    let mut out: Vec<SubstrateInstance> = Vec::new();
    let mut i: usize = 0;
    while i < v.len()
        invariant
            i <= v@.len(),
            out@.len() == i,
            forall|k: int| 0 <= k < i ==> (#[trigger] out@[k])@ == v@[k]@,
        decreases v@.len() - i,
    {
        let c = v[i].copy();
        out.push(c);
        i = i + 1;
    }
    assert(instances_view(out@) =~= instances_view(v@));
    out
}

/// Where in the cluster a filing's subject stands.
#[derive(Debug)]
pub enum FilingTarget {
    /// The cluster the relay serves.
    Cluster,
    /// A namespace, which names a group at a rank.
    Namespace { namespace: String },
    /// One application scheduled in the cluster.
    Instance { namespace: String, name: String },
}

/// A target as what it names.
pub enum TargetV {
    Cluster,
    Namespace { namespace: Seq<char> },
    Instance { namespace: Seq<char>, name: Seq<char> },
}

impl View for FilingTarget {
    type V = TargetV;

    open spec fn view(&self) -> TargetV {
        match self {
            FilingTarget::Cluster => TargetV::Cluster,
            FilingTarget::Namespace { namespace } => TargetV::Namespace { namespace: namespace@ },
            FilingTarget::Instance { namespace, name } => TargetV::Instance {
                namespace: namespace@,
                name: name@,
            },
        }
    }
}

/// A check about the cluster's own substrate, with its instances.
#[derive(Debug)]
pub struct SubstrateFiling {
    pub target: FilingTarget,
    pub check: String,
    pub instances: Vec<SubstrateInstance>,
    pub title: Option<String>,
    pub message: String,
    pub default_ceiling: CheckResult,
    pub default_escalates: bool,
    pub documentation: Option<String>,
}

/// A substrate filing as what it holds.
pub struct SubstrateFilingV {
    pub target: TargetV,
    pub check: Seq<char>,
    pub instances: Seq<InstanceV>,
    pub title: Option<Seq<char>>,
    pub message: Seq<char>,
    pub default_ceiling: CheckResult,
    pub default_escalates: bool,
    pub documentation: Option<Seq<char>>,
}

/// An optional string's text.
pub open spec fn opt_seq(s: Option<String>) -> Option<Seq<char>> {
    match s {
        Some(t) => Some(t@),
        None => None,
    }
}

impl View for SubstrateFiling {
    type V = SubstrateFilingV;

    open spec fn view(&self) -> SubstrateFilingV {
        SubstrateFilingV {
            target: self.target@,
            check: self.check@,
            instances: instances_view(self.instances@),
            title: opt_seq(self.title),
            message: self.message@,
            default_ceiling: self.default_ceiling,
            default_escalates: self.default_escalates,
            documentation: opt_seq(self.documentation),
        }
    }
}

/// What a relay files.
#[derive(Debug)]
pub enum Filing {
    /// A status-push body harvested from an application; its contents are
    /// the push ingestion's to read, not this library's.
    Harvest,
    /// A check about the cluster's substrate.
    Substrate(SubstrateFiling),
}

/// A filing as what it holds.
pub enum FilingV {
    Harvest,
    Substrate(SubstrateFilingV),
}

impl View for Filing {
    type V = FilingV;

    open spec fn view(&self) -> FilingV {
        match self {
            Filing::Harvest => FilingV::Harvest,
            Filing::Substrate(s) => FilingV::Substrate(s@),
        }
    }
}

} // verus!
