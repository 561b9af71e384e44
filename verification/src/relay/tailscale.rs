//! The Tailscale API proxy: whether operators can get into the cluster's API
//! over the tailnet.
//!
//! The Tailscale operator runs the proxy one of two ways, and the check reads
//! whichever the cluster uses:
//!
//! - As a ProxyGroup of type `kube-apiserver`, which the operator reports on:
//!   whether a proxy is available to serve, and the tailnet devices it holds.
//!   Both halves of the check are read there.
//! - In-process, inside the operator itself. The operator reports nothing
//!   about its own tailnet connection there, so only its readiness can be
//!   read, and the detail says the tailnet half was not.

use vstd::prelude::*;
use crate::json::{
    elements_view, entries_view, entry, jarray, jfield, jpath, jstr, object, array, text, Json, JsonV,
};
use crate::relay::cluster::{owned, Determination, DeterminationV};
use crate::relay::protocol::{InstanceV, SubstrateInstance};
use crate::relay::workloads::Replicas;
use crate::status::CheckResult;
use crate::text::{push_str, str_eq};

verus! {

/// The operator's environment variable naming its in-process proxy mode.
pub fn apiserver_proxy_env() -> (s: &'static str)
    ensures
        s@ == "APISERVER_PROXY"@,
{
    "APISERVER_PROXY"
}

/// A `kube-apiserver` ProxyGroup, as much of it as the check reads.
#[derive(Debug, Clone)]
pub struct ProxyGroup {
    pub name: String,
    /// Whether the operator reports a proxy ready to serve.
    pub available: bool,
    /// The tailnet devices the operator reports the group holding.
    pub devices: Vec<String>,
}

/// A ProxyGroup as what it reports.
pub struct ProxyGroupV {
    pub name: Seq<char>,
    pub available: bool,
    pub devices: Seq<Seq<char>>,
}

impl View for ProxyGroup {
    type V = ProxyGroupV;

    open spec fn view(&self) -> ProxyGroupV {
        ProxyGroupV {
            name: self.name@,
            available: self.available,
            devices: self.devices@.map_values(|d: String| d@),
        }
    }
}

/// The status the first condition of the kind reports, as whether it is
/// `True`; nothing where there is no such condition or it states no status.
pub open spec fn condition_status(cs: Seq<JsonV>, kind: Seq<char>) -> Option<bool>
    decreases cs.len(),
{
    if cs.len() == 0 {
        None
    } else if jstr(jfield(cs[0], "type"@)) == Some(kind) {
        match jstr(jfield(cs[0], "status"@)) {
            Some(s) => Some(s == "True"@),
            None => None,
        }
    } else {
        condition_status(cs.drop_first(), kind)
    }
}

/// The hostnames of the devices that hold tailnet addresses.
pub open spec fn connected_devices(ds: Seq<JsonV>) -> Seq<Seq<char>>
    decreases ds.len(),
{
    if ds.len() == 0 {
        Seq::empty()
    } else {
        let rest = connected_devices(ds.drop_last());
        let d = ds.last();
        let on = match jarray(jfield(d, "tailnetIPs"@)) {
            Some(ips) => ips.len() > 0,
            None => false,
        };
        match jstr(jfield(d, "hostname"@)) {
            Some(h) => if on { rest.push(h) } else { rest },
            None => rest,
        }
    }
}

/// The elements of an optional array, or none.
pub open spec fn elements_or_none(j: Option<JsonV>) -> Seq<JsonV> {
    match jarray(j) {
        Some(v) => v,
        None => Seq::empty(),
    }
}

/// What a ProxyGroup object says, or nothing for one that is not an API
/// proxy.
///
/// Available is "at least one proxy can serve", which is what getting in
/// needs; an operator too old to report it has only Ready to go on.
pub open spec fn read_spec(name: Seq<char>, object: JsonV) -> Option<ProxyGroupV> {
    if jstr(jpath(object, seq!["spec"@, "type"@])) != Some("kube-apiserver"@) {
        None
    } else {
        let cs = elements_or_none(jpath(object, seq!["status"@, "conditions"@]));
        let available = match condition_status(cs, "ProxyGroupAvailable"@) {
            Some(b) => b,
            None => match condition_status(cs, "ProxyGroupReady"@) {
                Some(b) => b,
                None => false,
            },
        };
        Some(
            ProxyGroupV {
                name,
                available,
                devices: connected_devices(elements_or_none(jpath(object, seq!["status"@, "devices"@]))),
            },
        )
    }
}

/// The elements of an array found by following `keys`, or none.
fn elements_at<'a>(object: &'a Json, keys: &[&str]) -> (r: Option<&'a Vec<Json>>)
    ensures
        match r {
            Some(v) => jarray(jpath(object@, keys@.map_values(|k: &str| k@))) == Some(elements_view(v@)),
            None => jarray(jpath(object@, keys@.map_values(|k: &str| k@))) is None,
        },
{
    match object.lookup(keys) {
        Some(v) => v.as_array(),
        None => None,
    }
}

fn condition_in(cs: &Vec<Json>, kind: &str) -> (r: Option<bool>)
    ensures
        r == condition_status(elements_view(cs@), kind@),
{
    let ghost v = elements_view(cs@);
    let mut i: usize = 0;
    assert(v.skip(0) =~= v);
    while i < cs.len()
        invariant
            i <= cs@.len(),
            v == elements_view(cs@),
            condition_status(v, kind@) == condition_status(v.skip(i as int), kind@),
        decreases cs@.len() - i,
    {
        assert(v.skip(i as int).drop_first() =~= v.skip(i + 1));
        assert(v.skip(i as int)[0] == cs@[i as int]@);
        let c = &cs[i];
        let kind_here = match c.get("type") {
            Some(t) => t.as_str(),
            None => None,
        };
        let matched = match kind_here {
            Some(k) => str_eq(k, kind),
            None => false,
        };
        if matched {
            return match c.get("status") {
                Some(st) => match st.as_str() {
                    Some(s) => Some(str_eq(s, "True")),
                    None => None,
                },
                None => None,
            };
        }
        i = i + 1;
    }
    None
}

impl ProxyGroup {
    /// Read a ProxyGroup object, or `None` for one that is not an API proxy.
    pub fn read(name: &str, object: &Json) -> (r: Option<Self>)
        ensures
            match r {
                Some(g) => read_spec(name@, object@) == Some(g@),
                None => read_spec(name@, object@) is None,
            },
    {
        proof {
            reveal_strlit("spec");
            reveal_strlit("type");
            reveal_strlit("status");
            reveal_strlit("conditions");
            reveal_strlit("devices");
            assert(seq!["spec", "type"].map_values(|k: &str| k@) =~= seq!["spec"@, "type"@]);
            assert(seq!["status", "conditions"].map_values(|k: &str| k@) =~= seq!["status"@, "conditions"@]);
            assert(seq!["status", "devices"].map_values(|k: &str| k@) =~= seq!["status"@, "devices"@]);
        }
        let kind = match object.lookup(&["spec", "type"]) {
            Some(t) => t.as_str(),
            None => None,
        };
        let is_api = match kind {
            Some(k) => str_eq(k, "kube-apiserver"),
            None => false,
        };
        if !is_api {
            return None;
        }
        let available = match elements_at(object, &["status", "conditions"]) {
            Some(cs) => match condition_in(cs, "ProxyGroupAvailable") {
                Some(b) => b,
                None => match condition_in(cs, "ProxyGroupReady") {
                    Some(b) => b,
                    None => false,
                },
            },
            None => {
                assert(condition_status(Seq::<JsonV>::empty(), "ProxyGroupAvailable"@) is None);
                assert(condition_status(Seq::<JsonV>::empty(), "ProxyGroupReady"@) is None);
                false
            },
        };
        let mut devices: Vec<String> = Vec::new();
        match elements_at(object, &["status", "devices"]) {
            Some(ds) => {
                let ghost v = elements_view(ds@);
                let mut i: usize = 0;
                while i < ds.len()
                    invariant
                        i <= ds@.len(),
                        v == elements_view(ds@),
                        devices@.map_values(|d: String| d@) == connected_devices(v.take(i as int)),
                    decreases ds@.len() - i,
                {
                    assert(v.take(i + 1).drop_last() =~= v.take(i as int));
                    assert(v.take(i + 1).last() == ds@[i as int]@);
                    let d = &ds[i];
                    let on = match d.get("tailnetIPs") {
                        Some(ips) => match ips.as_array() {
                            Some(list) => list.len() > 0,
                            None => false,
                        },
                        None => false,
                    };
                    match d.get("hostname") {
                        Some(h) => match h.as_str() {
                            Some(host) => {
                                if on {
                                    devices.push(owned(host));
                                    assert(devices@.map_values(|d: String| d@) =~= connected_devices(
                                        v.take(i as int),
                                    ).push(host@));
                                }
                            },
                            None => {},
                        },
                        None => {},
                    }
                    i = i + 1;
                }
                assert(v.take(ds@.len() as int) =~= v);
            },
            None => {
                assert(devices@.map_values(|d: String| d@) =~= Seq::<Seq<char>>::empty());
            },
        }
        Some(ProxyGroup { name: owned(name), available, devices })
    }
}

/// Whether an operator container runs the API proxy in-process, from the mode
/// its chart sets in its environment.
pub fn runs_proxy_in_process(mode: Option<&str>) -> (r: bool)
    ensures
        r == (mode matches Some(m) && (m@ == "true"@ || m@ == "noauth"@)),
{
    match mode {
        Some(m) => str_eq(m, "true") || str_eq(m, "noauth"),
        None => false,
    }
}

/// Whether a group is serving on the tailnet.
pub open spec fn serving(g: ProxyGroupV) -> bool {
    g.available && g.devices.len() > 0
}

/// The first group serving on the tailnet, by position.
pub open spec fn first_serving(gs: Seq<ProxyGroupV>) -> Option<int>
    decreases gs.len(),
{
    if gs.len() == 0 {
        None
    } else if serving(gs[0]) {
        Some(0)
    } else {
        match first_serving(gs.drop_first()) {
            Some(k) => Some(k + 1),
            None => None,
        }
    }
}

/// What the proxy-group reading files.
pub open spec fn proxy_groups_spec(gs: Seq<ProxyGroupV>) -> DeterminationV {
    let healthy = first_serving(gs);
    let shown = match healthy {
        Some(k) => gs[k],
        None => gs[0],
    };
    let observed = if healthy is Some { CheckResult::Passed } else { CheckResult::Failed };
    let message = if healthy is Some {
        "the API proxy "@ + shown.name + " is serving on the tailnet"@
    } else if !shown.available {
        "the API proxy "@ + shown.name + " has no proxy ready to serve"@
    } else {
        "the API proxy "@ + shown.name + " is not connected to the tailnet"@
    };
    DeterminationV {
        instances: seq![
            InstanceV {
                label: Seq::empty(),
                observed,
                detail: Some(
                    JsonV::Object(
                        seq![
                            ("connected"@, JsonV::Bool(shown.devices.len() > 0)),
                            ("devices"@, JsonV::Array(shown.devices.map_values(|d: Seq<char>| JsonV::Str(d)))),
                            ("mode"@, JsonV::Str("proxy-group"@)),
                            ("proxy"@, JsonV::Str(shown.name)),
                            ("ready"@, JsonV::Bool(shown.available)),
                        ],
                    ),
                ),
            },
        ],
        message,
    }
}

/// What the in-process reading files for the operator serving the proxy.
pub open spec fn operator_spec(name: Seq<char>, replicas: Replicas) -> DeterminationV {
    let ready = replicas.desired > 0 && replicas.ready >= replicas.desired;
    DeterminationV {
        instances: seq![
            InstanceV {
                label: Seq::empty(),
                observed: if ready { CheckResult::Passed } else { CheckResult::Failed },
                detail: Some(
                    JsonV::Object(
                        seq![
                            ("connected"@, JsonV::Null),
                            ("mode"@, JsonV::Str("in-process"@)),
                            ("proxy"@, JsonV::Str(name)),
                            ("ready"@, JsonV::Bool(ready)),
                        ],
                    ),
                ),
            },
        ],
        message: if ready {
            "the Tailscale operator "@ + name + ", which serves the API proxy, is ready"@
        } else {
            "the Tailscale operator "@ + name + ", which serves the API proxy, is not ready"@
        },
    }
}

/// Grade the proxy from what the cluster has: its API-proxy ProxyGroups, else
/// the operator running it in-process; nothing where the cluster has neither,
/// the condition not existing there.
pub open spec fn determine_spec(gs: Seq<ProxyGroupV>, in_process: Option<(Seq<char>, Replicas)>) -> Option<DeterminationV> {
    if gs.len() > 0 {
        Some(proxy_groups_spec(gs))
    } else {
        match in_process {
            Some((name, replicas)) => Some(operator_spec(name, replicas)),
            None => None,
        }
    }
}

/// Grade the proxy from what the cluster has.
pub fn determine(groups: &[ProxyGroup], in_process: Option<(&str, Replicas)>) -> (r: Option<Determination>)
    ensures
        match r {
            Some(d) => determine_spec(groups@.map_values(|g: ProxyGroup| g@), match in_process {
                Some((n, rep)) => Some((n@, rep)),
                None => None,
            }) == Some(d@),
            None => determine_spec(groups@.map_values(|g: ProxyGroup| g@), match in_process {
                Some((n, rep)) => Some((n@, rep)),
                None => None,
            }) is None,
        },
{
    if groups.len() > 0 {
        return Some(proxy_groups(groups));
    }
    match in_process {
        Some((name, replicas)) => Some(operator(name, replicas)),
        None => None,
    }
}

/// Strings as JSON strings.
fn texts(v: &Vec<String>) -> (r: Json)
    ensures
        r@ == JsonV::Array(v@.map_values(|d: String| d@).map_values(|d: Seq<char>| JsonV::Str(d))),
{
    let mut out: Vec<Json> = Vec::new();
    let mut i: usize = 0;
    while i < v.len()
        invariant
            i <= v@.len(),
            out@.len() == i,
            forall|k: int| 0 <= k < i ==> (#[trigger] out@[k])@ == JsonV::Str(v@[k]@),
        decreases v@.len() - i,
    {
        out.push(Json::String(v[i].clone()));
        i = i + 1;
    }
    assert(elements_view(out@) =~= v@.map_values(|d: String| d@).map_values(|d: Seq<char>| JsonV::Str(d)));
    array(out)
}

/// The first group serving on the tailnet.
fn first_healthy(groups: &[ProxyGroup]) -> (r: Option<usize>)
    ensures
        match r {
            Some(k) => k < groups@.len() && first_serving(groups@.map_values(|g: ProxyGroup| g@)) == Some(k as int),
            None => first_serving(groups@.map_values(|g: ProxyGroup| g@)) is None,
        },
{
    let ghost gs = groups@.map_values(|g: ProxyGroup| g@);
    let mut i: usize = 0;
    assert(gs.skip(0) =~= gs);
    while i < groups.len()
        invariant
            i <= groups@.len(),
            gs == groups@.map_values(|g: ProxyGroup| g@),
            first_serving(gs) == match first_serving(gs.skip(i as int)) {
                Some(k) => Some(k + i),
                None => None,
            },
        decreases groups@.len() - i,
    {
        assert(gs.skip(i as int).drop_first() =~= gs.skip(i + 1));
        assert(gs.skip(i as int)[0] == gs[i as int]);
        if groups[i].available && groups[i].devices.len() > 0 {
            return Some(i);
        }
        i = i + 1;
    }
    None
}

/// Operators can get in when any one API proxy is serving and on the tailnet.
fn proxy_groups(groups: &[ProxyGroup]) -> (d: Determination)
    requires
        groups@.len() > 0,
    ensures
        d@ == proxy_groups_spec(groups@.map_values(|g: ProxyGroup| g@)),
{
    let ghost gs = groups@.map_values(|g: ProxyGroup| g@);
    let healthy = first_healthy(groups);
    let shown = match healthy {
        Some(k) => &groups[k],
        None => &groups[0],
    };
    let mut message = owned("the API proxy ");
    push_str(&mut message, shown.name.as_str());
    let observed = match healthy {
        Some(_) => {
            push_str(&mut message, " is serving on the tailnet");
            CheckResult::Passed
        },
        None => {
            if !shown.available {
                push_str(&mut message, " has no proxy ready to serve");
            } else {
                push_str(&mut message, " is not connected to the tailnet");
            }
            CheckResult::Failed
        },
    };
    let mut e: Vec<(String, Json)> = Vec::new();
    e.push(entry("connected", Json::Bool(shown.devices.len() > 0)));
    e.push(entry("devices", texts(&shown.devices)));
    e.push(entry("mode", text("proxy-group")));
    e.push(entry("proxy", Json::String(shown.name.clone())));
    e.push(entry("ready", Json::Bool(shown.available)));
    let ghost sv = shown@;
    proof {
        match healthy {
            Some(k) => assert(sv == gs[k as int]),
            None => assert(sv == gs[0]),
        }
        assert(shown.devices@.len() == sv.devices.len());
    }
    assert(entries_view(e@) =~= proxy_groups_spec(gs).instances[0].detail->0->Object_0);
    let detail = object(e);
    let d = Determination { instances: vec![SubstrateInstance::only(observed, Some(detail))], message };
    assert(d@.instances =~= proxy_groups_spec(gs).instances);
    d
}

fn operator(name: &str, replicas: Replicas) -> (d: Determination)
    ensures
        d@ == operator_spec(name@, replicas),
{
    let ready = replicas.desired > 0 && replicas.ready >= replicas.desired;
    let mut message = owned("the Tailscale operator ");
    push_str(&mut message, name);
    let observed = if ready {
        push_str(&mut message, ", which serves the API proxy, is ready");
        CheckResult::Passed
    } else {
        push_str(&mut message, ", which serves the API proxy, is not ready");
        CheckResult::Failed
    };
    let mut e: Vec<(String, Json)> = Vec::new();
    // The operator reports nothing about its own tailnet connection, so this
    // half is not read.
    e.push(entry("connected", Json::Null));
    e.push(entry("mode", text("in-process")));
    e.push(entry("proxy", text(name)));
    e.push(entry("ready", Json::Bool(ready)));
    assert(entries_view(e@) =~= operator_spec(name@, replicas).instances[0].detail->0->Object_0);
    let detail = object(e);
    let d = Determination { instances: vec![SubstrateInstance::only(observed, Some(detail))], message };
    assert(d@.instances =~= operator_spec(name@, replicas).instances);
    d
}

/// The first group serving is the first, by position, that is available and
/// holds a connected device; there is none only where no group is.
proof fn lemma_first_serving(gs: Seq<ProxyGroupV>)
    ensures
        match first_serving(gs) {
            Some(k) => 0 <= k < gs.len() && gs[k].available && gs[k].devices.len() > 0 && forall|j: int|
                0 <= j < k ==> !(#[trigger] gs[j].available && gs[j].devices.len() > 0),
            None => forall|j: int| 0 <= j < gs.len() ==> !(#[trigger] gs[j].available && gs[j].devices.len() > 0),
        },
    decreases gs.len(),
{
    if gs.len() > 0 && !serving(gs[0]) {
        let t = gs.drop_first();
        lemma_first_serving(t);
        match first_serving(t) {
            Some(k) => {
                assert forall|j: int| 0 <= j < k + 1 implies !(#[trigger] gs[j].available && gs[j].devices.len() > 0) by {
                    if j > 0 {
                        assert(gs[j] == t[j - 1]);
                    }
                }
                assert(gs[k + 1] == t[k]);
            },
            None => {
                assert forall|j: int| 0 <= j < gs.len() implies !(#[trigger] gs[j].available && gs[j].devices.len() > 0) by {
                    if j > 0 {
                        assert(gs[j] == t[j - 1]);
                    }
                }
            },
        }
    }
}

/// Where the cluster has API ProxyGroups, the proxy passes exactly when some
/// group, wherever it stands, is available and holds a connected device, and
/// fails otherwise. A pass names the first such group; a failure names the
/// first group, as having no proxy ready where it is not available and as not
/// on the tailnet where it is.
pub proof fn law_any_serving_group_passes(gs: Seq<ProxyGroupV>, in_process: Option<(Seq<char>, Replicas)>)
    requires
        gs.len() > 0,
    ensures
        determine_spec(gs, in_process) is Some,
        determine_spec(gs, in_process)->0.instances.len() == 1,
        (determine_spec(gs, in_process)->0.instances[0].observed == CheckResult::Passed) <==> exists|i: int|
            0 <= i < gs.len() && #[trigger] gs[i].available && gs[i].devices.len() > 0,
        determine_spec(gs, in_process)->0.instances[0].observed == CheckResult::Passed
            || determine_spec(gs, in_process)->0.instances[0].observed == CheckResult::Failed,
        determine_spec(gs, in_process)->0.instances[0].observed == CheckResult::Passed ==> exists|k: int|
            0 <= k < gs.len() && #[trigger] gs[k].available && gs[k].devices.len() > 0 && (forall|j: int|
                0 <= j < k ==> !(#[trigger] gs[j].available && gs[j].devices.len() > 0))
                && determine_spec(gs, in_process)->0.message == "the API proxy "@ + gs[k].name
                + " is serving on the tailnet"@,
        determine_spec(gs, in_process)->0.instances[0].observed == CheckResult::Failed ==> determine_spec(
            gs,
            in_process,
        )->0.message == (if !gs[0].available {
            "the API proxy "@ + gs[0].name + " has no proxy ready to serve"@
        } else {
            "the API proxy "@ + gs[0].name + " is not connected to the tailnet"@
        }),
{
    lemma_first_serving(gs);
    let d = proxy_groups_spec(gs);
    assert(determine_spec(gs, in_process) == Some(d));
    match first_serving(gs) {
        Some(k) => {
            assert(gs[k].available && gs[k].devices.len() > 0);
        },
        None => {
            if exists|i: int| 0 <= i < gs.len() && #[trigger] gs[i].available && gs[i].devices.len() > 0 {
                let i = choose|i: int| 0 <= i < gs.len() && #[trigger] gs[i].available && gs[i].devices.len() > 0;
                assert(!(gs[i].available && gs[i].devices.len() > 0));
            }
        },
    }
}

} // verus!
