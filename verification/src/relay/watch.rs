//! What the relay makes of its watches on the cluster, and the checks it
//! determines from what they hold.
//!
//! Each kind a check reads is held current by a watch. The watch's state says
//! whether what it holds can be read: a refusal, a kind the cluster does not
//! serve, or a watch failing for long enough all stand in the way. A moment is
//! a count of nanoseconds on the relay's monotonic clock.

use vstd::prelude::*;
use crate::json::{entries_view, entry, object, Json, JsonV};
use crate::relay::cluster::{owned, refused_detail, Determination, DeterminationV, Refusal};
use crate::relay::node_pools::{conditions, conditions_spec, grade, grade_spec, message, message_spec};
use crate::relay::order::{lex_less, lex_lt, lemma_lex_total};
use crate::relay::protocol::{instances_view, InstanceV, SubstrateInstance};
use crate::relay::tailscale::{
    apiserver_proxy_env, determine, determine_spec, read_spec, runs_proxy_in_process, ProxyGroup, ProxyGroupV,
};
use crate::relay::workloads::{
    daemon, daemon_spec, database, database_spec, desired_sum, ready_sum, scaled, scaled_spec, Replicas, Share,
};
use crate::status::CheckResult;
use crate::text::{push_str, str_eq};

verus! {

/// How long a watch may keep failing before a check reading it is broken. A
/// watch drops and restarts routinely, and what it holds stays current enough
/// across that; one that does not come back is a check that cannot run.
pub const FAILING_FOR: u64 = 120_000_000_000;

/// What stands in the way of reading a kind.
#[derive(Debug, Clone)]
pub enum Problem {
    Refused(Refusal),
    /// The kind is not served by this cluster: its CRD is not installed.
    Absent,
    Failing { since: u64, message: String },
}

/// What a watch's state says about the kind it watches.
#[derive(Debug, Clone)]
pub struct WatchState {
    /// Whether the kind has been listed at least once.
    pub synced: bool,
    pub problem: Option<Problem>,
}

/// What a watch reports.
#[derive(Debug)]
pub enum WatchEvent {
    /// The initial listing is complete.
    InitDone,
    /// An object was listed, applied or deleted.
    Changed,
    /// The watch failed, with what its failure says about the kind.
    Failed(Problem),
}

/// What a watch error says about the kind being watched: refused where the
/// cluster answered 403, absent where a listing answered 404, and otherwise
/// failing since now.
pub open spec fn classify_spec(
    verb: Seq<char>,
    status: Option<(u16, Seq<char>)>,
    resource: Seq<char>,
    described: Seq<char>,
    now: u64,
) -> ProblemV {
    match status {
        Some((code, message)) => if code == 403 {
            ProblemV::Refused { verb, resource, message }
        } else if code == 404 && verb == "list"@ {
            ProblemV::Absent
        } else {
            ProblemV::Failing { since: now, message: described }
        },
        None => ProblemV::Failing { since: now, message: described },
    }
}

/// A problem as what it says.
pub enum ProblemV {
    Refused { verb: Seq<char>, resource: Seq<char>, message: Seq<char> },
    Absent,
    Failing { since: u64, message: Seq<char> },
}

impl View for Problem {
    type V = ProblemV;

    open spec fn view(&self) -> ProblemV {
        match self {
            Problem::Refused(r) => ProblemV::Refused {
                verb: r.verb@,
                resource: r.resource@,
                message: r.message@,
            },
            Problem::Absent => ProblemV::Absent,
            Problem::Failing { since, message } => ProblemV::Failing { since: *since, message: message@ },
        }
    }
}

/// An optional problem as what it says.
pub open spec fn opt_problem(p: Option<Problem>) -> Option<ProblemV> {
    match p {
        Some(q) => Some(q@),
        None => None,
    }
}

/// What a watch error says about the kind being watched.
///
/// `verb` is what the watch was doing (`list` while listing, `watch` after),
/// `status` the cluster's answer where it gave one, and `described` the
/// error as written.
pub fn classify(
    verb: &'static str,
    status: Option<(u16, String)>,
    resource: &str,
    described: String,
    now: u64,
) -> (p: Problem)
    ensures
        p@ == classify_spec(verb@, match status { Some((c, m)) => Some((c, m@)), None => None }, resource@, described@, now),
{
    match status {
        Some((code, message)) => {
            if code == 403 {
                Problem::Refused(Refusal { verb, resource: owned(resource), message })
            } else if code == 404 && str_eq(verb, "list") {
                Problem::Absent
            } else {
                Problem::Failing { since: now, message: described }
            }
        },
        None => Problem::Failing { since: now, message: described },
    }
}

/// The problem a watch holds after failing again: one failing for a while is
/// timed from when it started failing, not from the latest attempt.
pub open spec fn merged(held: Option<ProblemV>, new: ProblemV) -> ProblemV {
    match (held, new) {
        (Some(ProblemV::Failing { since, .. }), ProblemV::Failing { message, .. }) => ProblemV::Failing { since, message },
        (_, p) => p,
    }
}

/// A watch's state after an event.
pub open spec fn after_event(synced: bool, problem: Option<ProblemV>, event: WatchEventV) -> (bool, Option<ProblemV>) {
    match event {
        WatchEventV::InitDone => (true, None),
        WatchEventV::Changed => (synced, match problem {
            Some(ProblemV::Failing { .. }) => None,
            p => p,
        }),
        WatchEventV::Failed(p) => (synced, Some(merged(problem, p))),
    }
}

/// An event as what it says.
pub enum WatchEventV {
    InitDone,
    Changed,
    Failed(ProblemV),
}

impl View for WatchEvent {
    type V = WatchEventV;

    open spec fn view(&self) -> WatchEventV {
        match self {
            WatchEvent::InitDone => WatchEventV::InitDone,
            WatchEvent::Changed => WatchEventV::Changed,
            WatchEvent::Failed(p) => WatchEventV::Failed(p@),
        }
    }
}

/// What a check can read of a kind right now.
#[derive(Debug)]
pub enum Reading {
    /// Everything the watch holds can be read.
    Ready,
    Refused(Refusal),
    Absent,
    Broken(String),
    /// Not listed yet, so there is nothing to determine from.
    NotYet,
}

/// A reading as what it says.
pub enum ReadingV {
    Ready,
    Refused { verb: Seq<char>, resource: Seq<char>, message: Seq<char> },
    Absent,
    Broken(Seq<char>),
    NotYet,
}

impl View for Reading {
    type V = ReadingV;

    open spec fn view(&self) -> ReadingV {
        match self {
            Reading::Ready => ReadingV::Ready,
            Reading::Refused(r) => ReadingV::Refused { verb: r.verb@, resource: r.resource@, message: r.message@ },
            Reading::Absent => ReadingV::Absent,
            Reading::Broken(m) => ReadingV::Broken(m@),
            Reading::NotYet => ReadingV::NotYet,
        }
    }
}

/// What a watch's state lets a check read at `now`.
pub open spec fn reading_spec(synced: bool, problem: Option<ProblemV>, now: u64) -> ReadingV {
    match problem {
        Some(ProblemV::Refused { verb, resource, message }) => ReadingV::Refused { verb, resource, message },
        Some(ProblemV::Absent) => ReadingV::Absent,
        Some(ProblemV::Failing { since, message }) if now >= since && now - since >= FAILING_FOR => ReadingV::Broken(message),
        _ => if !synced { ReadingV::NotYet } else { ReadingV::Ready },
    }
}

impl WatchState {
    /// A watch that has reported nothing yet.
    pub fn new() -> (s: Self)
        ensures
            !s.synced,
            s.problem is None,
    {
        WatchState { synced: false, problem: None }
    }

    /// Take in what the watch reported.
    pub fn observe(&mut self, event: WatchEvent)
        ensures
            (final(self).synced, opt_problem(final(self).problem)) == after_event(
                old(self).synced,
                opt_problem(old(self).problem),
                event@,
            ),
    {
        match event {
            WatchEvent::InitDone => {
                self.synced = true;
                self.problem = None;
            },
            WatchEvent::Changed => {
                let failing = match &self.problem {
                    Some(Problem::Failing { .. }) => true,
                    _ => false,
                };
                if failing {
                    self.problem = None;
                }
            },
            WatchEvent::Failed(p) => {
                let merged = match (&self.problem, p) {
                    (Some(Problem::Failing { since, .. }), Problem::Failing { message, .. }) => Problem::Failing {
                        since: *since,
                        message,
                    },
                    (_, p) => p,
                };
                self.problem = Some(merged);
            },
        }
    }

    /// What a check can read of the kind at `now`.
    pub fn read(&self, now: u64) -> (r: Reading)
        ensures
            r@ == reading_spec(self.synced, opt_problem(self.problem), now),
    {
        match &self.problem {
            Some(Problem::Refused(r)) => {
                return Reading::Refused(
                    Refusal { verb: r.verb, resource: r.resource.clone(), message: r.message.clone() },
                );
            },
            Some(Problem::Absent) => {
                return Reading::Absent;
            },
            Some(Problem::Failing { since, message }) => {
                if now >= *since && now - *since >= FAILING_FOR {
                    return Reading::Broken(message.clone());
                }
            },
            None => {},
        }
        if !self.synced {
            Reading::NotYet
        } else {
            Reading::Ready
        }
    }
}

/// What a check files when the relay cannot read the cluster.
pub open spec fn broken_spec(message: Seq<char>) -> DeterminationV {
    DeterminationV {
        instances: seq![
            InstanceV {
                label: Seq::empty(),
                observed: CheckResult::Broken,
                detail: Some(JsonV::Object(seq![("message"@, JsonV::Str(message))])),
            },
        ],
        message: "the relay cannot read the cluster: "@ + message,
    }
}

/// What a check files when the relay cannot read the cluster.
pub fn broken(message: String) -> (d: Determination)
    ensures
        d@ == broken_spec(message@),
{
    let mut said = owned("the relay cannot read the cluster: ");
    push_str(&mut said, message.as_str());
    let mut e: Vec<(String, Json)> = Vec::new();
    e.push(entry("message", Json::String(message.clone())));
    assert(entries_view(e@) =~= seq![("message"@, JsonV::Str(message@))]);
    let detail = object(e);
    let d = Determination { instances: vec![SubstrateInstance::only(CheckResult::Broken, Some(detail))], message: said };
    assert(d@.instances =~= broken_spec(message@).instances);
    d
}

/// What a check reading a kind files when it cannot read it: nothing where the
/// kind is readable or not listed yet.
pub open spec fn unreadable_spec(r: ReadingV) -> Option<DeterminationV> {
    match r {
        ReadingV::Refused { verb, resource, message } => Some(
            DeterminationV {
                instances: seq![
                    InstanceV {
                        label: Seq::empty(),
                        observed: CheckResult::Broken,
                        detail: Some(refused_detail(verb, resource, message)),
                    },
                ],
                message: "the relay is not permitted to "@ + verb + " "@ + resource,
            },
        ),
        ReadingV::Broken(m) => Some(broken_spec(m)),
        ReadingV::Absent => Some(broken_spec("the kind is not served by this cluster"@)),
        ReadingV::Ready | ReadingV::NotYet => None,
    }
}

impl Reading {
    /// What a check reading this kind files when it cannot be read.
    pub fn unreadable(self) -> (d: Option<Determination>)
        ensures
            match d {
                Some(x) => unreadable_spec(self@) == Some(x@),
                None => unreadable_spec(self@) is None,
            },
    {
        match self {
            Reading::Refused(refusal) => Some(Determination::refused(&refusal)),
            Reading::Broken(message) => Some(broken(message)),
            Reading::Absent => Some(broken(owned("the kind is not served by this cluster"))),
            Reading::Ready | Reading::NotYet => None,
        }
    }
}

/// Where `x` goes among instances already in label order: after every one
/// whose label does not sort after its own, so equal labels keep their order.
pub open spec fn insert_by_label(s: Seq<InstanceV>, x: InstanceV) -> Seq<InstanceV>
    decreases s.len(),
{
    if s.len() == 0 {
        seq![x]
    } else if lex_lt(x.label, s.last().label) {
        insert_by_label(s.drop_last(), x).push(s.last())
    } else {
        s.push(x)
    }
}

/// The instances in label order, equal labels keeping the order they came in.
pub open spec fn sort_by_label(s: Seq<InstanceV>) -> Seq<InstanceV>
    decreases s.len(),
{
    if s.len() == 0 {
        Seq::empty()
    } else {
        insert_by_label(sort_by_label(s.drop_last()), s.last())
    }
}

/// Inserting at the place found by scanning back from the end.
proof fn lemma_insert_at(s: Seq<InstanceV>, x: InstanceV, j: int)
    requires
        0 <= j <= s.len(),
        forall|k: int| j <= k < s.len() ==> lex_lt(x.label, #[trigger] s[k].label),
        j > 0 ==> !lex_lt(x.label, s[j - 1].label),
    ensures
        insert_by_label(s, x) == s.take(j) + seq![x] + s.skip(j),
    decreases s.len(),
{
    if s.len() == 0 {
        assert(s.take(j) + seq![x] + s.skip(j) =~= seq![x]);
    } else if j == s.len() {
        assert(s.take(j) + seq![x] + s.skip(j) =~= s.push(x));
    } else {
        let t = s.drop_last();
        assert forall|k: int| j <= k < t.len() implies lex_lt(x.label, #[trigger] t[k].label) by {
            assert(t[k] == s[k]);
        }
        if j > 0 {
            assert(t[j - 1] == s[j - 1]);
        }
        lemma_insert_at(t, x, j);
        assert(s.take(j) + seq![x] + s.skip(j) =~= (t.take(j) + seq![x] + t.skip(j)).push(s.last()));
    }
}

/// The instances sorted by label, equal labels keeping their order.
pub fn sort_instances(v: Vec<SubstrateInstance>) -> (r: Vec<SubstrateInstance>)
    ensures
        instances_view(r@) == sort_by_label(instances_view(v@)),
{
    let ghost iv = instances_view(v@);
    let mut out: Vec<SubstrateInstance> = Vec::new();
    let mut rest = v;
    let total = rest.len();
    let ghost n = iv.len();
    let mut i: usize = 0;
    while rest.len() > 0
        invariant
            iv == instances_view(v@),
            n == iv.len(),
            n == v@.len(),
            n == total,
            i + rest@.len() == n,
            forall|k: int| 0 <= k < rest@.len() ==> (#[trigger] rest@[k])@ == iv[i + k],
            instances_view(out@) == sort_by_label(iv.take(i as int)),
        decreases rest@.len(),
    {
        let x = rest.remove(0);
        assert(x@ == iv[i as int]);
        let ghost before = instances_view(out@);
        let mut j: usize = out.len();
        while j > 0 && lex_less(x.label.as_str(), out[j - 1].label.as_str())
            invariant
                j <= out@.len(),
                before == instances_view(out@),
                forall|k: int| j <= k < out@.len() ==> lex_lt(x@.label, #[trigger] before[k].label),
            decreases j,
        {
            assert(before[j - 1] == out@[j - 1]@);
            j = j - 1;
        }
        proof {
            if j > 0 {
                assert(before[j - 1] == out@[j - 1]@);
            }
            lemma_insert_at(before, x@, j as int);
            assert(iv.take(i + 1).drop_last() =~= iv.take(i as int));
            assert(iv.take(i + 1).last() == x@);
        }
        out.insert(j, x);
        assert(instances_view(out@) =~= before.take(j as int) + seq![iv[i as int]] + before.skip(j as int));
        i = i + 1;
    }
    assert(iv.take(n as int) =~= iv);
    out
}

/// A NodePool object: its name and what it holds.
#[derive(Debug)]
pub struct Named {
    pub name: Option<String>,
    pub data: Json,
}

/// A name, or nothing's text.
pub open spec fn name_or_empty(n: Option<String>) -> Seq<char> {
    match n {
        Some(s) => s@,
        None => Seq::empty(),
    }
}

/// A name, or nothing's text.
fn name_of(n: &Option<String>) -> (r: &str)
    ensures
        r@ == name_or_empty(*n),
{
    proof {
        reveal_strlit("");
    }
    match n {
        Some(s) => s.as_str(),
        None => "",
    }
}

/// Each pool graded, in the order listed.
pub open spec fn graded_pools(pools: Seq<Named>) -> Seq<InstanceV> {
    pools.map_values(|p: Named| grade_spec(name_or_empty(p.name), conditions_spec(p.data@)))
}

/// The node-pools check from what its watch holds.
pub open spec fn node_pools_spec(reading: ReadingV, pools: Seq<Named>) -> Option<DeterminationV> {
    match reading {
        ReadingV::Ready => {
            let instances = sort_by_label(graded_pools(pools));
            if instances.len() == 0 {
                None
            } else {
                Some(DeterminationV { instances, message: message_spec(instances) })
            }
        },
        // No Karpenter in this cluster, so the condition does not exist here.
        ReadingV::Absent | ReadingV::NotYet => None,
        other => unreadable_spec(other),
    }
}

/// Determine the node-pools check from what its watch holds.
pub fn determine_node_pools(reading: Reading, pools: &[Named]) -> (d: Option<Determination>)
    requires
        pools@.len() <= u64::MAX,
    ensures
        match d {
            Some(x) => node_pools_spec(reading@, pools@) == Some(x@),
            None => node_pools_spec(reading@, pools@) is None,
        },
{
    match reading {
        Reading::Ready => {},
        Reading::Absent | Reading::NotYet => {
            return None;
        },
        other => {
            return other.unreadable();
        },
    }
    let mut graded: Vec<SubstrateInstance> = Vec::new();
    let mut i: usize = 0;
    while i < pools.len()
        invariant
            i <= pools@.len(),
            instances_view(graded@) == graded_pools(pools@.take(i as int)),
        decreases pools@.len() - i,
    {
        let pool = &pools[i];
        let cs = conditions(&pool.data);
        let g = grade(name_of(&pool.name), cs.as_slice());
        assert(g@ == grade_spec(name_or_empty(pools@[i as int].name), conditions_spec(pools@[i as int].data@)));
        let ghost before = graded@;
        graded.push(g);
        assert(pools@.take(i + 1) =~= pools@.take(i as int).push(pools@[i as int]));
        assert(graded_pools(pools@.take(i + 1)) =~= graded_pools(pools@.take(i as int)).push(g@));
        assert(instances_view(graded@) =~= instances_view(before).push(g@));
        i = i + 1;
    }
    assert(pools@.take(pools@.len() as int) =~= pools@);
    let instances = sort_instances(graded);
    if instances.len() == 0 {
        return None;
    }
    proof {
        assert(instances_view(instances@).len() == instances@.len());
    }
    let m = message(instances.as_slice());
    Some(Determination { instances, message: m })
}

/// A Deployment, as much of it as the checks read.
#[derive(Debug)]
pub struct Deployment {
    pub namespace: Option<String>,
    pub name: Option<String>,
    pub replicas: Option<i32>,
    pub ready_replicas: Option<i32>,
    /// Each container of its pod template, with its environment: each
    /// variable's name and its value where it states one.
    pub containers: Vec<Vec<(String, Option<String>)>>,
}

/// A container's environment as text.
pub open spec fn env_view(env: Seq<(String, Option<String>)>) -> Seq<(Seq<char>, Option<Seq<char>>)> {
    env.map_values(|e: (String, Option<String>)| (e.0@, match e.1 { Some(v) => Some(v@), None => None }))
}

/// The value the first variable of the name states, if any.
pub open spec fn env_value(env: Seq<(Seq<char>, Option<Seq<char>>)>, name: Seq<char>) -> Option<Seq<char>>
    decreases env.len(),
{
    if env.len() == 0 {
        None
    } else if env[0].0 == name {
        env[0].1
    } else {
        env_value(env.drop_first(), name)
    }
}

/// Whether a mode runs the API proxy in-process.
pub open spec fn in_process_mode(mode: Option<Seq<char>>) -> bool {
    mode == Some("true"@) || mode == Some("noauth"@)
}

/// Whether any of a deployment's containers runs the API proxy in-process.
pub open spec fn serves_in_process(d: Deployment) -> bool {
    exists|k: int| 0 <= k < d.containers@.len() && in_process_mode(env_value(env_view(#[trigger] d.containers@[k]@), "APISERVER_PROXY"@))
}

/// The first deployment running the API proxy in-process, by position.
pub open spec fn first_in_process(ds: Seq<Deployment>) -> Option<int>
    decreases ds.len(),
{
    if ds.len() == 0 {
        None
    } else if serves_in_process(ds[0]) {
        Some(0)
    } else {
        match first_in_process(ds.drop_first()) {
            Some(k) => Some(k + 1),
            None => None,
        }
    }
}

/// The ProxyGroups that are API proxies, in the order listed.
pub open spec fn api_groups(objects: Seq<Named>) -> Seq<ProxyGroupV>
    decreases objects.len(),
{
    if objects.len() == 0 {
        Seq::empty()
    } else {
        let rest = api_groups(objects.drop_last());
        let o = objects.last();
        match read_spec(name_or_empty(o.name), o.data@) {
            Some(g) => rest.push(g),
            None => rest,
        }
    }
}

/// The API-proxy check from what its two watches hold.
pub open spec fn api_proxy_spec(
    groups: ReadingV,
    objects: Seq<Named>,
    deployments: ReadingV,
    ds: Seq<Deployment>,
) -> Option<DeterminationV> {
    let gs = match groups {
        ReadingV::Ready => Some(api_groups(objects)),
        // No ProxyGroups served here: the proxy, if any, is in-process.
        ReadingV::Absent => Some(Seq::empty()),
        _ => None,
    };
    match gs {
        None => unreadable_spec(groups),
        Some(gs) => match deployments {
            ReadingV::Ready => {
                let in_process = match first_in_process(ds) {
                    Some(k) => Some((
                        name_or_empty(ds[k].namespace) + "/"@ + name_or_empty(ds[k].name),
                        scaled_spec(ds[k].replicas, ds[k].ready_replicas),
                    )),
                    None => None,
                };
                determine_spec(gs, in_process)
            },
            other => unreadable_spec(other),
        },
    }
}

/// The value the first variable of the name states, if any.
fn env_value_of<'a>(env: &'a Vec<(String, Option<String>)>, name: &str) -> (r: Option<&'a str>)
    ensures
        match r {
            Some(v) => env_value(env_view(env@), name@) == Some(v@),
            None => env_value(env_view(env@), name@) is None,
        },
{
    let ghost ev = env_view(env@);
    let mut i: usize = 0;
    assert(ev.skip(0) =~= ev);
    while i < env.len()
        invariant
            i <= env@.len(),
            ev == env_view(env@),
            env_value(ev, name@) == env_value(ev.skip(i as int), name@),
        decreases env@.len() - i,
    {
        assert(ev.skip(i as int).drop_first() =~= ev.skip(i + 1));
        assert(ev.skip(i as int)[0] == ev[i as int]);
        if str_eq(env[i].0.as_str(), name) {
            return match &env[i].1 {
                Some(v) => Some(v.as_str()),
                None => None,
            };
        }
        i = i + 1;
    }
    None
}

/// Whether any of a deployment's containers runs the API proxy in-process.
fn runs_in_process(d: &Deployment) -> (r: bool)
    ensures
        r == serves_in_process(*d),
{
    let env_name = apiserver_proxy_env();
    let mut k: usize = 0;
    while k < d.containers.len()
        invariant
            k <= d.containers@.len(),
            env_name@ == "APISERVER_PROXY"@,
            forall|j: int| 0 <= j < k ==> !in_process_mode(env_value(env_view(#[trigger] d.containers@[j]@), "APISERVER_PROXY"@)),
        decreases d.containers@.len() - k,
    {
        let mode = env_value_of(&d.containers[k], env_name);
        if runs_proxy_in_process(mode) {
            assert(in_process_mode(env_value(env_view(d.containers@[k as int]@), "APISERVER_PROXY"@)));
            return true;
        }
        k = k + 1;
    }
    false
}

/// The first deployment running the API proxy in-process.
fn first_in_process_of(ds: &[Deployment]) -> (r: Option<usize>)
    ensures
        match r {
            Some(k) => k < ds@.len() && first_in_process(ds@) == Some(k as int),
            None => first_in_process(ds@) is None,
        },
{
    let ghost dv = ds@;
    let mut i: usize = 0;
    assert(dv.skip(0) =~= dv);
    while i < ds.len()
        invariant
            i <= ds@.len(),
            dv == ds@,
            first_in_process(dv) == match first_in_process(dv.skip(i as int)) {
                Some(k) => Some(k + i),
                None => None,
            },
        decreases ds@.len() - i,
    {
        assert(dv.skip(i as int).drop_first() =~= dv.skip(i + 1));
        assert(dv.skip(i as int)[0] == dv[i as int]);
        if runs_in_process(&ds[i]) {
            return Some(i);
        }
        i = i + 1;
    }
    None
}

/// Determine the API-proxy check from what its two watches hold.
pub fn determine_api_proxy(
    groups: Reading,
    objects: &[Named],
    deployments: Reading,
    ds: &[Deployment],
) -> (d: Option<Determination>)
    ensures
        match d {
            Some(x) => api_proxy_spec(groups@, objects@, deployments@, ds@) == Some(x@),
            None => api_proxy_spec(groups@, objects@, deployments@, ds@) is None,
        },
{
    let mut read: Vec<ProxyGroup> = Vec::new();
    match groups {
        Reading::Ready => {
            let mut i: usize = 0;
            while i < objects.len()
                invariant
                    i <= objects@.len(),
                    read@.map_values(|g: ProxyGroup| g@) == api_groups(objects@.take(i as int)),
                decreases objects@.len() - i,
            {
                assert(objects@.take(i + 1).drop_last() =~= objects@.take(i as int));
                assert(objects@.take(i + 1).last() == objects@[i as int]);
                let o = &objects[i];
                match ProxyGroup::read(name_of(&o.name), &o.data) {
                    Some(g) => {
                        let ghost gv = g@;
                        read.push(g);
                        assert(read@.map_values(|g: ProxyGroup| g@) =~= api_groups(objects@.take(i as int)).push(gv));
                    },
                    None => {},
                }
                i = i + 1;
            }
            assert(objects@.take(objects@.len() as int) =~= objects@);
        },
        Reading::Absent => {
            assert(read@.map_values(|g: ProxyGroup| g@) =~= Seq::<ProxyGroupV>::empty());
        },
        other => {
            return other.unreadable();
        },
    }
    match deployments {
        Reading::Ready => {},
        other => {
            return other.unreadable();
        },
    }
    let found = first_in_process_of(ds);
    match found {
        Some(k) => {
            let d = &ds[k];
            let mut name = owned(name_of(&d.namespace));
            push_str(&mut name, "/");
            push_str(&mut name, name_of(&d.name));
            let replicas = scaled(d.replicas, d.ready_replicas);
            assert(name@ =~= name_or_empty(ds@[k as int].namespace) + "/"@ + name_or_empty(ds@[k as int].name));
            determine(read.as_slice(), Some((name.as_str(), replicas)))
        },
        None => determine(read.as_slice(), None),
    }
}

/// Deployments' and StatefulSets' replica counts and ready replicas.
#[derive(Debug, Clone, Copy)]
pub struct Scaled {
    pub replicas: Option<i32>,
    pub ready: Option<i32>,
}

/// A DaemonSet's status, where it reports one: the nodes it should be
/// scheduled on, and those where it is ready.
#[derive(Debug, Clone, Copy)]
pub struct DaemonStatus {
    pub status: Option<(i32, i32)>,
}

/// A CNPG database cluster, as much of it as the check reads.
#[derive(Debug)]
pub struct Database {
    pub instances: Option<i64>,
    pub ready_instances: Option<i64>,
    /// Its hibernation annotation.
    pub hibernation: Option<String>,
}

/// The contributions of deployments or statefulsets.
pub open spec fn scaled_all(v: Seq<Scaled>) -> Seq<Replicas> {
    v.map_values(|s: Scaled| scaled_spec(s.replicas, s.ready))
}

/// The contributions of daemonsets; one reporting no status asks for nothing.
pub open spec fn daemons_all(v: Seq<DaemonStatus>) -> Seq<Replicas> {
    v.map_values(|d: DaemonStatus| match d.status {
        Some((desired, ready)) => daemon_spec(desired, ready),
        None => daemon_spec(0, 0),
    })
}

/// The contributions of database clusters, leaving out the hibernated.
pub open spec fn databases_all(v: Seq<Database>) -> Seq<Replicas>
    decreases v.len(),
{
    if v.len() == 0 {
        Seq::empty()
    } else {
        let rest = databases_all(v.drop_last());
        let d = v.last();
        match database_spec(d.instances, d.ready_instances, match d.hibernation { Some(h) => Some(h@), None => None }) {
            Some(r) => rest.push(r),
            None => rest,
        }
    }
}

/// Everything the workloads check counts, in the order it counts them.
pub open spec fn counted(
    deployments: Seq<Scaled>,
    statefulsets: Seq<Scaled>,
    daemonsets: Seq<DaemonStatus>,
    databases: Seq<Database>,
    databases_served: bool,
) -> Seq<Replicas> {
    scaled_all(deployments) + scaled_all(statefulsets) + daemons_all(daemonsets)
        + if databases_served { databases_all(databases) } else { Seq::empty() }
}

/// The share the workloads check grades, or what it files instead where a kind
/// it reads cannot be read: nothing while one is not listed yet.
///
/// No CNPG in the cluster leaves no database clusters to count, rather than
/// a kind that cannot be read.
pub open spec fn workloads_spec(
    readings: (ReadingV, ReadingV, ReadingV, ReadingV),
    deployments: Seq<Scaled>,
    statefulsets: Seq<Scaled>,
    daemonsets: Seq<DaemonStatus>,
    databases: Seq<Database>,
) -> Result<Share, Option<DeterminationV>> {
    if !(readings.0 is Ready) {
        Err(unreadable_spec(readings.0))
    } else if !(readings.1 is Ready) {
        Err(unreadable_spec(readings.1))
    } else if !(readings.2 is Ready) {
        Err(unreadable_spec(readings.2))
    } else if !(readings.3 is Ready || readings.3 is Absent) {
        Err(unreadable_spec(readings.3))
    } else {
        let all = counted(deployments, statefulsets, daemonsets, databases, readings.3 is Ready);
        Ok(Share { desired: desired_sum(all) as u64, ready: ready_sum(all) as u64 })
    }
}

/// The share the workloads check grades, from what its four watches hold.
pub fn workloads_share(
    readings: (Reading, Reading, Reading, Reading),
    deployments: &[Scaled],
    statefulsets: &[Scaled],
    daemonsets: &[DaemonStatus],
    databases: &[Database],
) -> (r: Result<Share, Option<Determination>>)
    requires
        desired_sum(counted(deployments@, statefulsets@, daemonsets@, databases@, readings.3@ is Ready)) <= u64::MAX,
        ready_sum(counted(deployments@, statefulsets@, daemonsets@, databases@, readings.3@ is Ready)) <= u64::MAX,
    ensures
        match (r, workloads_spec((readings.0@, readings.1@, readings.2@, readings.3@), deployments@, statefulsets@, daemonsets@, databases@)) {
            (Ok(s), Ok(t)) => s == t,
            (Err(Some(d)), Err(Some(e))) => d@ == e,
            (Err(None), Err(None)) => true,
            _ => false,
        },
{
    let (dr, sr, dsr, dbr) = readings;
    let ghost db_ready = dbr@ is Ready;
    match dr {
        Reading::Ready => {},
        other => {
            return Err(other.unreadable());
        },
    }
    match sr {
        Reading::Ready => {},
        other => {
            return Err(other.unreadable());
        },
    }
    match dsr {
        Reading::Ready => {},
        other => {
            return Err(other.unreadable());
        },
    }
    let served = match dbr {
        Reading::Ready => true,
        Reading::Absent => false,
        other => {
            return Err(other.unreadable());
        },
    };
    let mut all: Vec<Replicas> = Vec::new();
    let mut i: usize = 0;
    while i < deployments.len()
        invariant
            i <= deployments@.len(),
            all@ == scaled_all(deployments@.take(i as int)),
        decreases deployments@.len() - i,
    {
        all.push(scaled(deployments[i].replicas, deployments[i].ready));
        assert(all@ =~= scaled_all(deployments@.take(i + 1)));
        i = i + 1;
    }
    assert(deployments@.take(deployments@.len() as int) =~= deployments@);
    let ghost after_deployments = all@;
    let mut i: usize = 0;
    while i < statefulsets.len()
        invariant
            i <= statefulsets@.len(),
            all@ == after_deployments + scaled_all(statefulsets@.take(i as int)),
        decreases statefulsets@.len() - i,
    {
        all.push(scaled(statefulsets[i].replicas, statefulsets[i].ready));
        assert(all@ =~= after_deployments + scaled_all(statefulsets@.take(i + 1)));
        i = i + 1;
    }
    assert(statefulsets@.take(statefulsets@.len() as int) =~= statefulsets@);
    let ghost after_statefulsets = all@;
    let mut i: usize = 0;
    while i < daemonsets.len()
        invariant
            i <= daemonsets@.len(),
            all@ == after_statefulsets + daemons_all(daemonsets@.take(i as int)),
        decreases daemonsets@.len() - i,
    {
        let r = match daemonsets[i].status {
            Some((desired, ready)) => daemon(desired, ready),
            None => daemon(0, 0),
        };
        all.push(r);
        assert(all@ =~= after_statefulsets + daemons_all(daemonsets@.take(i + 1)));
        i = i + 1;
    }
    assert(daemonsets@.take(daemonsets@.len() as int) =~= daemonsets@);
    let ghost after_daemonsets = all@;
    if served {
        let mut i: usize = 0;
        while i < databases.len()
            invariant
                i <= databases@.len(),
                all@ == after_daemonsets + databases_all(databases@.take(i as int)),
            decreases databases@.len() - i,
        {
            assert(databases@.take(i + 1).drop_last() =~= databases@.take(i as int));
            assert(databases@.take(i + 1).last() == databases@[i as int]);
            let d = &databases[i];
            let hibernation = match &d.hibernation {
                Some(h) => Some(h.as_str()),
                None => None,
            };
            match database(d.instances, d.ready_instances, hibernation) {
                Some(r) => {
                    all.push(r);
                    assert(all@ =~= after_daemonsets + databases_all(databases@.take(i as int)).push(r));
                },
                None => {},
            }
            i = i + 1;
        }
        assert(databases@.take(databases@.len() as int) =~= databases@);
    }
    assert(all@ =~= counted(deployments@, statefulsets@, daemonsets@, databases@, db_ready));
    Ok(Share::sum(all.as_slice()))
}

} // verus!
