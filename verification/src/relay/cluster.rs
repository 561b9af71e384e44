//! The checks the relay determines about its own cluster, filed under the
//! substrate source at the cluster grain.
//!
//! The relay holds the current result of each check, files when it changes,
//! and refiles everything it holds every minute, so canopy's view is
//! re-established after a missed observation, a restart, or a reconnection.

use vstd::prelude::*;
use vstd::multiset::Multiset;
use crate::json::{entries_view, entry, object, Json, JsonV};
use crate::relay::order::{lex_less, lex_lt, lemma_lex_irreflexive, lemma_lex_total, lemma_lex_transitive};
use crate::relay::protocol::{
    copy_instances, instances_view, Filing, FilingTarget, FilingV, InstanceV, SubstrateFiling,
    SubstrateFilingV, SubstrateInstance, TargetV,
};
use crate::status::CheckResult;
use crate::text::{push_str, str_eq};

verus! {

/// What a check is, independent of any one observation of it: the fields a
/// filing carries so canopy's catalog entry registers already reviewed.
#[derive(Debug, Clone, Copy)]
pub struct CheckSpec {
    pub name: &'static str,
    /// The headline a degraded filing carries.
    pub title: &'static str,
    pub documentation: &'static str,
}

/// The node-pools check.
pub fn node_pools_check() -> (c: CheckSpec)
    ensures
        c.name@ == "node-pools"@,
        c.title@ == "A node pool cannot provision nodes"@,
{
    CheckSpec {
        name: "node-pools",
        title: "A node pool cannot provision nodes",
        documentation: "## Description

One instance per Karpenter node pool in the cluster, graded on the pool's own conditions as Karpenter reports them. A pool that cannot provision nodes leaves whatever is scheduled to it pending.

## Results

- **pass**: the pool is ready and the nodes it launches register with the cluster. A pool that is not ready only because its node class is not ready passes here, the node class being its own condition.
- **fail**: the pool is not ready, or the nodes it launches are not registering. The detail names the condition and what Karpenter said about it.
- **broken**: the relay is not permitted to read node pools. The detail names what was refused.

## Solve

Read the pool's conditions with `kubectl describe nodepool <pool>`. Nodes not registering usually means they launch but cannot join: check the node class's AMI, subnets, security groups and instance profile, and the Karpenter controller's logs.
",
    }
}

/// The workloads-running check.
pub fn workloads_running_check() -> (c: CheckSpec)
    ensures
        c.name@ == "workloads-running"@,
        c.title@ == "Much of the cluster's workload is not running"@,
{
    CheckSpec {
        name: "workloads-running",
        title: "Much of the cluster's workload is not running",
        documentation: "## Description

How much of the cluster's workload is running: the share of desired replicas that are ready, summed across Deployments, StatefulSets, DaemonSets and CNPG database clusters. Workloads scaled to zero, hibernated database clusters and Jobs are left out, so a sleeping environment contributes nothing.

A large share of everything failing to run has causes no single application's check describes: the cluster out of capacity, nodes that cannot be provisioned, a broken node class, an admission webhook refusing pods.

## Results

- **pass**: 90% or more is ready.
- **warn**: under 90% for 5 minutes.
- **fail**: under 80% for 5 minutes, under 70% for 2 minutes, or under 50% at once.

Recovering takes 5 points more than falling: a warning passes again above 95%, and a failure lifts to a warning above 85%. The share is in the detail as `healthy_share`, so a policy rule on `check.healthy_share` regrades it.

- **broken**: the relay is not permitted to read one of the workload kinds. The detail names what was refused.

## Solve

Find what is not ready with `kubectl get pods -A --field-selector=status.phase!=Running` and look for a common cause: pending pods waiting on capacity (check the node pools and Karpenter), pods failing to be created (check quotas and admission webhooks), or a node that has gone.
",
    }
}

/// The tailscale-api-proxy check.
pub fn tailscale_api_proxy_check() -> (c: CheckSpec)
    ensures
        c.name@ == "tailscale-api-proxy"@,
        c.title@ == "Operators cannot reach the cluster's API over the tailnet"@,
{
    CheckSpec {
        name: "tailscale-api-proxy",
        title: "Operators cannot reach the cluster's API over the tailnet",
        documentation: "## Description

Whether operators can get into the cluster's API over the tailnet, through the Tailscale operator's Kubernetes API proxy. Operator access does not go through the ingress that serves the applications, so a cluster can serve its users while nobody can get in to work on it.

The proxy runs one of two ways. As a ProxyGroup of type `kube-apiserver`, the operator reports both whether a proxy is ready to serve and the tailnet devices it holds, and the check reads both. Run in-process inside the operator, nothing reports the operator's own tailnet connection, so the check reads only whether the operator is ready. The detail's `mode` says which was read.

## Results

- **pass**: the proxy is ready and, where it can be read, connected to the tailnet.
- **fail**: the proxy is not ready, or it is ready but not connected to the tailnet. The detail's `ready` and `connected` say which.
- **broken**: the relay is not permitted to read ProxyGroups or Deployments. The detail names what was refused.

## Solve

For a ProxyGroup, `kubectl describe proxygroup <name>` shows its conditions and devices. For the in-process proxy, check the operator's pod and logs in its namespace. A proxy that is ready but off the tailnet usually means its tailnet auth has lapsed: check the operator's OAuth client or workload identity, and the device in the Tailscale admin console.
",
    }
}

/// One observation of a check: its instances and what an operator reads.
#[derive(Debug)]
pub struct Determination {
    pub instances: Vec<SubstrateInstance>,
    pub message: String,
}

/// A determination as what it holds.
pub struct DeterminationV {
    pub instances: Seq<InstanceV>,
    pub message: Seq<char>,
}

impl View for Determination {
    type V = DeterminationV;

    open spec fn view(&self) -> DeterminationV {
        DeterminationV { instances: instances_view(self.instances@), message: self.message@ }
    }
}

impl Determination {
    /// A copy of the determination.
    pub fn copy(&self) -> (r: Self)
        ensures
            r@ == self@,
    {
        Determination { instances: copy_instances(&self.instances), message: self.message.clone() }
    }
}

/// A permission the cluster refused the relay.
#[derive(Debug, Clone)]
pub struct Refusal {
    pub verb: &'static str,
    pub resource: String,
    pub message: String,
}

/// A string holding the text.
pub fn owned(s: &str) -> (r: String)
    ensures
        r@ == s@,
{
    String::from_str(s)
}

/// What a refused check carries in its detail.
pub open spec fn refused_detail(verb: Seq<char>, resource: Seq<char>, message: Seq<char>) -> JsonV {
    JsonV::Object(
        seq![
            ("message"@, JsonV::Str(message)),
            (
                "refused"@,
                JsonV::Object(
                    seq![("resource"@, JsonV::Str(resource)), ("verb"@, JsonV::Str(verb))],
                ),
            ),
        ],
    )
}

impl Determination {
    /// A check the relay could not read because a permission it needed was
    /// not granted. Broken rather than absent: absent would say the condition
    /// does not exist on this cluster, which the relay cannot know.
    pub fn refused(refusal: &Refusal) -> (d: Self)
        ensures
            d@.instances == seq![
                InstanceV {
                    label: Seq::empty(),
                    observed: CheckResult::Broken,
                    detail: Some(refused_detail(refusal.verb@, refusal.resource@, refusal.message@)),
                },
            ],
            d@.message == "the relay is not permitted to "@ + refusal.verb@ + " "@
                + refusal.resource@,
    {
        let mut inner: Vec<(String, Json)> = Vec::new();
        inner.push(entry("resource", Json::String(refusal.resource.clone())));
        inner.push(entry("verb", Json::String(owned(refusal.verb))));
        assert(entries_view(inner@) =~= seq![("resource"@, JsonV::Str(refusal.resource@)), ("verb"@, JsonV::Str(refusal.verb@))]);
        let refused = object(inner);
        let mut outer: Vec<(String, Json)> = Vec::new();
        outer.push(entry("message", Json::String(refusal.message.clone())));
        outer.push(entry("refused", refused));
        assert(entries_view(outer@) =~= refused_detail(refusal.verb@, refusal.resource@, refusal.message@)->Object_0);
        let detail = object(outer);
        let mut message = owned("the relay is not permitted to ");
        push_str(&mut message, refusal.verb);
        push_str(&mut message, " ");
        push_str(&mut message, refusal.resource.as_str());
        let only = SubstrateInstance::only(CheckResult::Broken, Some(detail));
        let d = Determination { instances: vec![only], message };
        assert(d@.instances =~= seq![
            InstanceV {
                label: Seq::empty(),
                observed: CheckResult::Broken,
                detail: Some(refused_detail(refusal.verb@, refusal.resource@, refusal.message@)),
            },
        ]);
        d
    }
}

/// The filing for one observation of a check.
pub open spec fn filing_of(spec: CheckSpec, d: DeterminationV) -> FilingV {
    FilingV::Substrate(
        SubstrateFilingV {
            target: TargetV::Cluster,
            check: spec.name@,
            instances: d.instances,
            title: Some(spec.title@),
            message: d.message,
            // The relay grades these itself, so the catalog does not cap them;
            // and a cluster's issues open no incident, so escalation would be
            // inert anyway.
            default_ceiling: CheckResult::Failed,
            default_escalates: false,
            documentation: Some(spec.documentation@),
        },
    )
}

impl CheckSpec {
    /// The filing for one observation of this check.
    pub fn filing(&self, determination: Determination) -> (f: Filing)
        ensures
            f@ == filing_of(*self, determination@),
    {
        Filing::Substrate(
            SubstrateFiling {
                target: FilingTarget::Cluster,
                check: owned(self.name),
                instances: determination.instances,
                title: Some(owned(self.title)),
                message: determination.message,
                default_ceiling: CheckResult::Failed,
                default_escalates: false,
                documentation: Some(owned(self.documentation)),
            },
        )
    }
}

/// Each instance's label and result, in order.
pub open spec fn result_pairs(s: Seq<InstanceV>) -> Seq<(Seq<char>, CheckResult)> {
    s.map_values(|i: InstanceV| (i.label, i.observed))
}

/// The results a determination shows, as label and result, whatever their
/// order: what an operator acts on, apart from the detail.
pub open spec fn results(d: DeterminationV) -> Multiset<(Seq<char>, CheckResult)> {
    result_pairs(d.instances).to_multiset()
}

/// How often a label and result occur among the instances.
fn count_result(v: &Vec<SubstrateInstance>, label: &str, observed: CheckResult) -> (n: usize)
    ensures
        n == result_pairs(instances_view(v@)).to_multiset().count((label@, observed)),
{
    broadcast use vstd::seq_lib::group_to_multiset_ensures;
    let mut n: usize = 0;
    let mut i: usize = 0;
    while i < v.len()
        invariant
            i <= v@.len(),
            n <= i,
            n == result_pairs(instances_view(v@.take(i as int))).to_multiset().count((label@, observed)),
        decreases v@.len() - i,
    {
        let ghost before = result_pairs(instances_view(v@.take(i as int)));
        let ghost p = (v@[i as int].label@, v@[i as int].observed);
        assert(result_pairs(instances_view(v@.take(i + 1))) =~= before.push(p));
        proof {
            vstd::seq_lib::to_multiset_build(before, p);
        }
        if str_eq(v[i].label.as_str(), label) && v[i].observed == observed {
            n = n + 1;
        }
        i = i + 1;
    }
    assert(v@.take(v@.len() as int) =~= v@);
    n
}

/// Whether two determinations show the same results.
pub fn same_results(a: &Determination, b: &Determination) -> (r: bool)
    ensures
        r == (results(a@) == results(b@)),
{
    broadcast use vstd::seq_lib::group_to_multiset_ensures;
    let ghost sa = result_pairs(a@.instances);
    let ghost sb = result_pairs(b@.instances);
    let mut i: usize = 0;
    while i < a.instances.len()
        invariant
            i <= a.instances@.len(),
            sa == result_pairs(a@.instances),
            sb == result_pairs(b@.instances),
            forall|k: int| 0 <= k < i ==> sa.to_multiset().count(#[trigger] sa[k]) == sb.to_multiset().count(sa[k]),
        decreases a.instances@.len() - i,
    {
        let label = a.instances[i].label.as_str();
        let observed = a.instances[i].observed;
        assert(sa[i as int] == (label@, observed));
        if count_result(&a.instances, label, observed) != count_result(&b.instances, label, observed) {
            assert(results(a@).count(sa[i as int]) != results(b@).count(sa[i as int]));
            return false;
        }
        i = i + 1;
    }
    let mut j: usize = 0;
    while j < b.instances.len()
        invariant
            j <= b.instances@.len(),
            sa == result_pairs(a@.instances),
            sb == result_pairs(b@.instances),
            forall|k: int| 0 <= k < sa.len() ==> sa.to_multiset().count(#[trigger] sa[k]) == sb.to_multiset().count(sa[k]),
            forall|k: int| 0 <= k < j ==> sa.to_multiset().count(#[trigger] sb[k]) == sb.to_multiset().count(sb[k]),
        decreases b.instances@.len() - j,
    {
        let label = b.instances[j].label.as_str();
        let observed = b.instances[j].observed;
        assert(sb[j as int] == (label@, observed));
        if count_result(&a.instances, label, observed) != count_result(&b.instances, label, observed) {
            assert(results(a@).count(sb[j as int]) != results(b@).count(sb[j as int]));
            return false;
        }
        j = j + 1;
    }
    assert(results(a@) =~= results(b@)) by {
        assert forall|x: (Seq<char>, CheckResult)| #[trigger] sa.to_multiset().count(x) == sb.to_multiset().count(x) by {
            if sa.contains(x) {
                let k = choose|k: int| 0 <= k < sa.len() && sa[k] == x;
                assert(sa[k] == x);
            } else if sb.contains(x) {
                let k = choose|k: int| 0 <= k < sb.len() && sb[k] == x;
                assert(sb[k] == x);
            }
        }
    }
    true
}

/// A held check: its spec and its latest determination.
pub type HeldV = (CheckSpec, DeterminationV);

/// Whether the held checks are in name order, each name once.
pub open spec fn in_name_order(s: Seq<HeldV>) -> bool {
    forall|i: int, j: int| 0 <= i < j < s.len() ==> lex_lt(#[trigger] s[i].0.name@, #[trigger] s[j].0.name@)
}

/// The held checks after holding `d` for `spec`: it replaces the check of that
/// name, or joins the others in name order.
pub open spec fn put(s: Seq<HeldV>, spec: CheckSpec, d: DeterminationV) -> Seq<HeldV>
    decreases s.len(),
{
    if s.len() == 0 {
        seq![(spec, d)]
    } else if s[0].0.name@ == spec.name@ {
        seq![(spec, d)] + s.drop_first()
    } else if lex_lt(spec.name@, s[0].0.name@) {
        seq![(spec, d)] + s
    } else {
        seq![s[0]] + put(s.drop_first(), spec, d)
    }
}

/// The determination held for the check named `name`, if any.
pub open spec fn find(s: Seq<HeldV>, name: Seq<char>) -> Option<DeterminationV>
    decreases s.len(),
{
    if s.len() == 0 {
        None
    } else if s[0].0.name@ == name {
        Some(s[0].1)
    } else {
        find(s.drop_first(), name)
    }
}

/// Holding keeps the checks in name order.
pub proof fn lemma_put_in_order(s: Seq<HeldV>, spec: CheckSpec, d: DeterminationV)
    requires
        in_name_order(s),
    ensures
        in_name_order(put(s, spec, d)),
        forall|k: int| 0 <= k < put(s, spec, d).len() ==>
            (#[trigger] put(s, spec, d)[k]).0.name@ == spec.name@ || exists|m: int| 0 <= m < s.len() && s[m].0.name@ == put(s, spec, d)[k].0.name@,
    decreases s.len(),
{
    if s.len() == 0 {
    } else if s[0].0.name@ == spec.name@ {
        let r = put(s, spec, d);
        assert forall|i: int, j: int| 0 <= i < j < r.len() implies lex_lt(#[trigger] r[i].0.name@, #[trigger] r[j].0.name@) by {
            if i == 0 {
                assert(r[j] == s[j]);
            } else {
                assert(r[i] == s[i] && r[j] == s[j]);
            }
        }
        assert forall|k: int| 0 <= k < r.len() implies (#[trigger] r[k]).0.name@ == spec.name@ || exists|m: int| 0 <= m < s.len() && s[m].0.name@ == r[k].0.name@ by {
            if k > 0 {
                assert(r[k] == s[k]);
            }
        }
    } else if lex_lt(spec.name@, s[0].0.name@) {
        let r = put(s, spec, d);
        assert forall|i: int, j: int| 0 <= i < j < r.len() implies lex_lt(#[trigger] r[i].0.name@, #[trigger] r[j].0.name@) by {
            if i == 0 {
                assert(r[j] == s[j - 1]);
                if j > 1 {
                    assert(lex_lt(s[0].0.name@, s[j - 1].0.name@));
                    lemma_lex_transitive(spec.name@, s[0].0.name@, s[j - 1].0.name@);
                }
            } else {
                assert(r[i] == s[i - 1] && r[j] == s[j - 1]);
            }
        }
        assert forall|k: int| 0 <= k < r.len() implies (#[trigger] r[k]).0.name@ == spec.name@ || exists|m: int| 0 <= m < s.len() && s[m].0.name@ == r[k].0.name@ by {
            if k > 0 {
                assert(r[k] == s[k - 1]);
            }
        }
    } else {
        let t = s.drop_first();
        assert(in_name_order(t)) by {
            assert forall|i: int, j: int| 0 <= i < j < t.len() implies lex_lt(#[trigger] t[i].0.name@, #[trigger] t[j].0.name@) by {
                assert(t[i] == s[i + 1] && t[j] == s[j + 1]);
            }
        }
        lemma_put_in_order(t, spec, d);
        lemma_lex_total(spec.name@, s[0].0.name@);
        let r = put(s, spec, d);
        let pt = put(t, spec, d);
        assert(r == seq![s[0]] + pt);
        assert forall|i: int, j: int| 0 <= i < j < r.len() implies lex_lt(#[trigger] r[i].0.name@, #[trigger] r[j].0.name@) by {
            if i == 0 {
                assert(r[j] == pt[j - 1]);
                if pt[j - 1].0.name@ != spec.name@ {
                    let m = choose|m: int| 0 <= m < t.len() && t[m].0.name@ == pt[j - 1].0.name@;
                    assert(t[m] == s[m + 1]);
                }
            } else {
                assert(r[i] == pt[i - 1] && r[j] == pt[j - 1]);
            }
        }
        assert forall|k: int| 0 <= k < r.len() implies (#[trigger] r[k]).0.name@ == spec.name@ || exists|m: int| 0 <= m < s.len() && s[m].0.name@ == r[k].0.name@ by {
            if k == 0 {
                assert(s[0].0.name@ == r[0].0.name@);
            } else {
                assert(r[k] == pt[k - 1]);
                if pt[k - 1].0.name@ != spec.name@ {
                    let m = choose|m: int| 0 <= m < t.len() && t[m].0.name@ == pt[k - 1].0.name@;
                    assert(t[m] == s[m + 1]);
                }
            }
        }
    }
}

/// After holding `d` for a check, it is what is held for that check, and
/// what is held for every other check is unchanged.
pub proof fn lemma_put_find(s: Seq<HeldV>, spec: CheckSpec, d: DeterminationV, name: Seq<char>)
    ensures
        find(put(s, spec, d), name) == if name == spec.name@ { Some(d) } else { find(s, name) },
    decreases s.len(),
{
    let r = put(s, spec, d);
    if s.len() == 0 {
        assert(r[0] == (spec, d));
        assert(r.drop_first() =~= Seq::<HeldV>::empty());
        assert(find(r.drop_first(), name) is None);
    } else if s[0].0.name@ == spec.name@ {
        assert(r[0] == (spec, d));
        assert(r.drop_first() =~= s.drop_first());
        assert(find(r, name) == if name == spec.name@ { Some(d) } else { find(s.drop_first(), name) });
    } else if lex_lt(spec.name@, s[0].0.name@) {
        assert(r[0] == (spec, d));
        assert(r.drop_first() =~= s);
    } else {
        lemma_put_find(s.drop_first(), spec, d, name);
        assert(r[0] == s[0]);
        assert(r.drop_first() =~= put(s.drop_first(), spec, d));
    }
}

/// Where the checks sorting before `name` end: the place a check of that
/// name is, or would go.
pub proof fn lemma_put_at(s: Seq<HeldV>, spec: CheckSpec, d: DeterminationV, p: int)
    requires
        in_name_order(s),
        0 <= p <= s.len(),
        forall|k: int| 0 <= k < p ==> lex_lt(#[trigger] s[k].0.name@, spec.name@),
        p < s.len() ==> !lex_lt(s[p].0.name@, spec.name@),
    ensures
        p < s.len() && s[p].0.name@ == spec.name@ ==> put(s, spec, d) == s.take(p) + seq![(spec, d)] + s.skip(p + 1),
        !(p < s.len() && s[p].0.name@ == spec.name@) ==> put(s, spec, d) == s.take(p) + seq![(spec, d)] + s.skip(p),
    decreases p,
{
    if p == 0 {
        if s.len() > 0 {
            lemma_lex_total(s[0].0.name@, spec.name@);
            if s[0].0.name@ == spec.name@ {
                assert(s.drop_first() =~= s.skip(1));
            }
        }
        assert(s.take(0) =~= Seq::<HeldV>::empty());
        assert(s.skip(0) =~= s);
    } else {
        let t = s.drop_first();
        assert(in_name_order(t)) by {
            assert forall|i: int, j: int| 0 <= i < j < t.len() implies lex_lt(#[trigger] t[i].0.name@, #[trigger] t[j].0.name@) by {
                assert(t[i] == s[i + 1] && t[j] == s[j + 1]);
            }
        }
        assert forall|k: int| 0 <= k < p - 1 implies lex_lt(#[trigger] t[k].0.name@, spec.name@) by {
            assert(t[k] == s[k + 1]);
        }
        if p - 1 < t.len() {
            assert(t[p - 1] == s[p]);
        }
        lemma_put_at(t, spec, d, p - 1);
        assert(lex_lt(s[0].0.name@, spec.name@));
        lemma_lex_total(s[0].0.name@, spec.name@);
        lemma_lex_irreflexive(spec.name@);
        assert(s[0].0.name@ != spec.name@);
        if p < s.len() && s[p].0.name@ == spec.name@ {
            assert(s.take(p) + seq![(spec, d)] + s.skip(p + 1) =~= seq![s[0]] + (t.take(p - 1) + seq![(spec, d)] + t.skip(p)));
        } else {
            assert(s.take(p) + seq![(spec, d)] + s.skip(p) =~= seq![s[0]] + (t.take(p - 1) + seq![(spec, d)] + t.skip(p - 1)));
        }
    }
}

/// The current result of each check, as last determined.
///
/// Both halves of the filing discipline read from here: a change is filed at
/// once, and the refile sends everything held.
#[derive(Debug)]
pub struct Held {
    checks: Vec<(CheckSpec, Determination)>,
}

impl View for Held {
    type V = Seq<HeldV>;

    closed spec fn view(&self) -> Seq<HeldV> {
        self.checks@.map_values(|e: (CheckSpec, Determination)| (e.0, e.1@))
    }
}

impl Held {
    /// Whether the held checks are kept in name order.
    pub closed spec fn wf(&self) -> bool {
        in_name_order(self@)
    }

    /// Nothing held.
    pub fn new() -> (h: Self)
        ensures
            h.wf(),
            h@ == Seq::<HeldV>::empty(),
    {
        let h = Held { checks: Vec::new() };
        assert(h@ =~= Seq::<HeldV>::empty());
        h
    }

    /// Hold a check's latest determination, returning its filing if its result
    /// changed and it should be filed now.
    ///
    /// A change is one an operator acts on: an instance appearing, going, or
    /// changing result. Detail that moves without the result moving is held
    /// and carried by the next refile, so a busy cluster does not file on
    /// every pod.
    pub fn set(&mut self, spec: CheckSpec, determination: Determination) -> (r: Option<Filing>)
        requires
            old(self).wf(),
        ensures
            final(self).wf(),
            final(self)@ == put(old(self)@, spec, determination@),
            r is Some <==> match find(old(self)@, spec.name@) {
                None => true,
                Some(held) => results(held) != results(determination@),
            },
            r matches Some(f) ==> f@ == filing_of(spec, determination@),
    {
        let ghost s = self@;
        let mut p: usize = 0;
        while p < self.checks.len() && lex_less(self.checks[p].0.name, spec.name)
            invariant
                s == self@,
                in_name_order(s),
                p <= self.checks@.len(),
                forall|k: int| 0 <= k < p ==> lex_lt(#[trigger] s[k].0.name@, spec.name@),
            decreases self.checks@.len() - p,
        {
            p = p + 1;
        }
        proof {
            if p < s.len() {
                assert(s[p as int].0 == self.checks@[p as int].0);
            }
            lemma_put_at(s, spec, determination@, p as int);
        }
        let found = p < self.checks.len() && str_eq(self.checks[p].0.name, spec.name);
        proof {
            // What is held under the name is found at the place it would go.
            if found {
                assert(s[p as int].0.name@ == spec.name@);
                lemma_find_at(s, spec.name@, p as int);
            } else {
                lemma_find_absent(s, spec.name@, p as int);
            }
        }
        let changed = if found {
            !same_results(&self.checks[p].1, &determination)
        } else {
            true
        };
        let kept = determination.copy();
        let ghost before = self.checks@;
        if found {
            self.checks.set(p, (spec, kept));
        } else {
            self.checks.insert(p, (spec, kept));
        }
        proof {
            let put_s = put(s, spec, determination@);
            if found {
                assert(self@ =~= s.take(p as int) + seq![(spec, determination@)] + s.skip(p + 1));
            } else {
                assert(self@ =~= s.take(p as int) + seq![(spec, determination@)] + s.skip(p as int));
            }
            lemma_put_in_order(s, spec, determination@);
        }
        if changed {
            Some(spec.filing(determination))
        } else {
            None
        }
    }

    /// Every held check's filing, in name order, for the refile.
    pub fn all(&self) -> (r: Vec<Filing>)
        ensures
            r@.len() == self@.len(),
            forall|k: int| 0 <= k < r@.len() ==> (#[trigger] r@[k])@ == filing_of(self@[k].0, self@[k].1),
    {
        let mut out: Vec<Filing> = Vec::new();
        let mut i: usize = 0;
        while i < self.checks.len()
            invariant
                i <= self@.len(),
                self@.len() == self.checks@.len(),
                out@.len() == i,
                forall|k: int| 0 <= k < i ==> (#[trigger] out@[k])@ == filing_of(self@[k].0, self@[k].1),
            decreases self.checks@.len() - i,
        {
            let spec = self.checks[i].0;
            let f = spec.filing(self.checks[i].1.copy());
            out.push(f);
            i = i + 1;
        }
        out
    }
}

/// What woke the relay's loop.
pub enum Wake {
    /// The refile interval came round: every held check is filed again.
    Refile,
    /// The checks were determined afresh, in this order, each `None` where it
    /// could not be determined this time.
    Evaluated(Vec<(CheckSpec, Option<Determination>)>),
}

/// Whether taking in `d` for `spec` changes what the check's filing says.
pub open spec fn changes(s: Seq<HeldV>, spec: CheckSpec, d: DeterminationV) -> bool {
    match find(s, spec.name@) {
        None => true,
        Some(held) => results(held) != results(d),
    }
}

/// The determinations as values.
pub open spec fn determined_view(v: Seq<(CheckSpec, Option<Determination>)>) -> Seq<(CheckSpec, Option<DeterminationV>)> {
    v.map_values(
        |e: (CheckSpec, Option<Determination>)|
            (
                e.0,
                match e.1 {
                    Some(d) => Some(d@),
                    None => None,
                },
            ),
    )
}

/// The filings as values.
pub open spec fn filings_view(v: Seq<Filing>) -> Seq<FilingV> {
    v.map_values(|f: Filing| f@)
}

/// Every held check's filing, in the order held.
pub open spec fn refiled(s: Seq<HeldV>) -> Seq<FilingV> {
    s.map_values(|h: HeldV| filing_of(h.0, h.1))
}

/// What the held checks become, and what is filed, when one evaluation's
/// determinations are taken in order: each one determined is held, and filed
/// where its results changed; one not determined leaves what was held.
pub open spec fn taken_in(held: Seq<HeldV>, determined: Seq<(CheckSpec, Option<DeterminationV>)>) -> (Seq<HeldV>, Seq<FilingV>)
    decreases determined.len(),
{
    if determined.len() == 0 {
        (held, Seq::empty())
    } else {
        let before = taken_in(held, determined.drop_last());
        let (spec, d) = determined.last();
        match d {
            None => before,
            Some(d) => (
                put(before.0, spec, d),
                if changes(before.0, spec, d) {
                    before.1.push(filing_of(spec, d))
                } else {
                    before.1
                },
            ),
        }
    }
}

impl Held {
    /// One turn of the relay's loop: what is held after it, and the filings to
    /// send, in order, for what woke it.
    pub fn step(&mut self, wake: Wake) -> (r: Vec<Filing>)
        requires
            old(self).wf(),
        ensures
            final(self).wf(),
            match wake {
                Wake::Refile => final(self)@ == old(self)@ && filings_view(r@) == refiled(old(self)@),
                Wake::Evaluated(ds) => (final(self)@, filings_view(r@)) == taken_in(old(self)@, determined_view(ds@)),
            },
    {
        match wake {
            Wake::Refile => {
                let r = self.all();
                assert(filings_view(r@) =~= refiled(self@));
                r
            },
            Wake::Evaluated(ds) => {
                let ghost all = ds@;
                let ghost h0 = self@;
                let mut ds = ds;
                assert(all.len() == ds.len());
                let mut out: Vec<Filing> = Vec::new();
                let mut i: usize = 0;
                assert(all.take(0) =~= Seq::<(CheckSpec, Option<Determination>)>::empty());
                assert(determined_view(all.take(0)) =~= Seq::<(CheckSpec, Option<DeterminationV>)>::empty());
                assert(filings_view(out@) =~= Seq::<FilingV>::empty());
                while ds.len() > 0
                    invariant
                        self.wf(),
                        i <= all.len() <= usize::MAX,
                        ds@ == all.skip(i as int),
                        (self@, filings_view(out@)) == taken_in(h0, determined_view(all.take(i as int))),
                    decreases ds.len(),
                {
                    let ghost before = self@;
                    let ghost filed = out@;
                    assert(all.skip(i as int).len() == all.len() - i);
                    let (spec, d) = ds.remove(0);
                    proof {
                        assert(all.take(i + 1).drop_last() =~= all.take(i as int));
                        assert(determined_view(all.take(i + 1)).drop_last() =~= determined_view(all.take(i as int)));
                        assert(all.skip(i as int)[0] == all[i as int]);
                        assert(all.skip(i + 1) =~= all.skip(i as int).drop_first());
                    }
                    match d {
                        Some(d) => {
                            let ghost dv = d@;
                            if let Some(f) = self.set(spec, d) {
                                out.push(f);
                                assert(filings_view(out@) =~= filings_view(filed).push(f@));
                            }
                        },
                        None => {},
                    }
                    i = i + 1;
                }
                assert(all.take(i as int) =~= all);
                out
            },
        }
    }
}

/// What a name finds at the place it is held.
pub proof fn lemma_find_at(s: Seq<HeldV>, name: Seq<char>, p: int)
    requires
        in_name_order(s),
        0 <= p < s.len(),
        s[p].0.name@ == name,
    ensures
        find(s, name) == Some(s[p].1),
    decreases p,
{
    if p > 0 {
        let t = s.drop_first();
        assert(in_name_order(t)) by {
            assert forall|i: int, j: int| 0 <= i < j < t.len() implies lex_lt(#[trigger] t[i].0.name@, #[trigger] t[j].0.name@) by {
                assert(t[i] == s[i + 1] && t[j] == s[j + 1]);
            }
        }
        assert(t[p - 1] == s[p]);
        lemma_find_at(t, name, p - 1);
        assert(lex_lt(s[0].0.name@, s[p].0.name@));
        lemma_lex_irreflexive(name);
    }
}

/// A name not at the place it would go is not held at all.
pub proof fn lemma_find_absent(s: Seq<HeldV>, name: Seq<char>, p: int)
    requires
        in_name_order(s),
        0 <= p <= s.len(),
        forall|k: int| 0 <= k < p ==> lex_lt(#[trigger] s[k].0.name@, name),
        p < s.len() ==> !lex_lt(s[p].0.name@, name) && s[p].0.name@ != name,
    ensures
        find(s, name) is None,
    decreases s.len(),
{
    if s.len() > 0 {
        let t = s.drop_first();
        assert(in_name_order(t)) by {
            assert forall|i: int, j: int| 0 <= i < j < t.len() implies lex_lt(#[trigger] t[i].0.name@, #[trigger] t[j].0.name@) by {
                assert(t[i] == s[i + 1] && t[j] == s[j + 1]);
            }
        }
        if p > 0 {
            assert(lex_lt(s[0].0.name@, name));
            lemma_lex_irreflexive(name);
            assert forall|k: int| 0 <= k < p - 1 implies lex_lt(#[trigger] t[k].0.name@, name) by {
                assert(t[k] == s[k + 1]);
            }
            if p - 1 < t.len() {
                assert(t[p - 1] == s[p]);
            }
            lemma_find_absent(t, name, p - 1);
        } else {
            // Everything from here sorts after the name.
            lemma_lex_total(s[0].0.name@, name);
            assert(lex_lt(name, s[0].0.name@));
            assert forall|k: int| 0 <= k < t.len() implies lex_lt(name, #[trigger] t[k].0.name@) by {
                assert(t[k] == s[k + 1]);
                lemma_lex_transitive(name, s[0].0.name@, s[k + 1].0.name@);
            }
            lemma_find_after(t, name);
        }
    }
}

/// A name sorting before everything held is not held.
pub proof fn lemma_find_after(s: Seq<HeldV>, name: Seq<char>)
    requires
        forall|k: int| 0 <= k < s.len() ==> lex_lt(name, #[trigger] s[k].0.name@),
    ensures
        find(s, name) is None,
    decreases s.len(),
{
    if s.len() > 0 {
        lemma_lex_irreflexive(name);
        let t = s.drop_first();
        assert forall|k: int| 0 <= k < t.len() implies lex_lt(name, #[trigger] t[k].0.name@) by {
            assert(t[k] == s[k + 1]);
        }
        lemma_find_after(t, name);
    }
}

/// The refile carries what was last held for a check: after a check's
/// determination is held, what is held for it is that determination, and what
/// is held for every other check is as it was.
pub proof fn law_the_refile_carries_the_latest(
    held: Seq<HeldV>,
    spec: CheckSpec,
    d: DeterminationV,
    name: Seq<char>,
)
    requires
        in_name_order(held),
    ensures
        in_name_order(put(held, spec, d)),
        find(put(held, spec, d), spec.name@) == Some(d),
        name != spec.name@ ==> find(put(held, spec, d), name) == find(held, name),
{
    lemma_put_in_order(held, spec, d);
    lemma_put_find(held, spec, d, spec.name@);
    lemma_put_find(held, spec, d, name);
}

} // verus!
