//! Node pools: one instance per Karpenter NodePool, graded on the pool's own
//! conditions.

use vstd::prelude::*;
use crate::json::{
    elements_view, entries_view, entry, jarray, jfield, jget, jpath, jstr, object, str_or_null, text,
    text_or_null, Json, JsonV,
};
use crate::relay::cluster::owned;
use crate::relay::protocol::{instances_view, InstanceV, SubstrateInstance};
use crate::status::CheckResult;
use crate::text::{decimal, decimal_spec, join, joined, push_str, str_eq};

verus! {

/// A NodePool condition as Karpenter reports it.
#[derive(Debug, Clone)]
pub struct Condition {
    pub kind: String,
    pub status: String,
    pub reason: Option<String>,
    pub message: Option<String>,
}

/// A condition as what it says.
pub struct ConditionV {
    pub kind: Seq<char>,
    pub status: Seq<char>,
    pub reason: Option<Seq<char>>,
    pub message: Option<Seq<char>>,
}

/// An optional string's text.
pub open spec fn opt_text(s: Option<String>) -> Option<Seq<char>> {
    match s {
        Some(t) => Some(t@),
        None => None,
    }
}

impl View for Condition {
    type V = ConditionV;

    open spec fn view(&self) -> ConditionV {
        ConditionV {
            kind: self.kind@,
            status: self.status@,
            reason: opt_text(self.reason),
            message: opt_text(self.message),
        }
    }
}

/// Whether a condition reports `False`.
pub open spec fn false_spec(c: ConditionV) -> bool {
    c.status == "False"@
}

impl Condition {
    /// Whether the condition reports `False`.
    pub fn is_false(&self) -> (r: bool)
        ensures
            r == false_spec(self@),
    {
        str_eq(self.status.as_str(), "False")
    }
}

/// The condition a status entry describes, if it names its type and status.
pub open spec fn condition_of(c: JsonV) -> Option<ConditionV> {
    match (jstr(jfield(c, "type"@)), jstr(jfield(c, "status"@))) {
        (Some(kind), Some(status)) => Some(
            ConditionV {
                kind,
                status,
                reason: jstr(jfield(c, "reason"@)),
                message: jstr(jfield(c, "message"@)),
            },
        ),
        _ => None,
    }
}

/// The conditions the entries describe, in order, skipping any that does not
/// name its type and status.
pub open spec fn conditions_in(cs: Seq<JsonV>) -> Seq<ConditionV>
    decreases cs.len(),
{
    if cs.len() == 0 {
        Seq::empty()
    } else {
        match condition_of(cs.last()) {
            Some(c) => conditions_in(cs.drop_last()).push(c),
            None => conditions_in(cs.drop_last()),
        }
    }
}

/// The conditions on a NodePool object's status.
pub open spec fn conditions_spec(object: JsonV) -> Seq<ConditionV> {
    match jarray(jpath(object, seq!["status"@, "conditions"@])) {
        Some(cs) => conditions_in(cs),
        None => Seq::empty(),
    }
}

/// An optional string copied out of a JSON member.
fn opt_string(j: Option<&Json>) -> (r: Option<String>)
    ensures
        opt_text(r) == jstr(match j { Some(v) => Some(v@), None => None }),
{
    match j {
        Some(v) => match v.as_str() {
            Some(s) => Some(owned(s)),
            None => None,
        },
        None => None,
    }
}

/// The conditions on a NodePool object's status.
pub fn conditions(object: &Json) -> (r: Vec<Condition>)
    ensures
        r@.map_values(|c: Condition| c@) == conditions_spec(object@),
{
    let mut out: Vec<Condition> = Vec::new();
    let found = object.lookup(&["status", "conditions"]);
    proof {
        reveal_strlit("status");
        reveal_strlit("conditions");
        let ks = seq!["status", "conditions"].map_values(|k: &str| k@);
        assert(ks =~= seq!["status"@, "conditions"@]);
    }
    let list = match found {
        Some(v) => v.as_array(),
        None => None,
    };
    match list {
        None => {
            assert(out@.map_values(|c: Condition| c@) =~= Seq::<ConditionV>::empty());
            out
        },
        Some(cs) => {
            let ghost view = elements_view(cs@);
            let mut i: usize = 0;
            while i < cs.len()
                invariant
                    i <= cs@.len(),
                    view == elements_view(cs@),
                    out@.map_values(|c: Condition| c@) == conditions_in(view.take(i as int)),
                decreases cs@.len() - i,
            {
                assert(view.take(i + 1).drop_last() =~= view.take(i as int));
                assert(view.take(i + 1).last() == cs@[i as int]@);
                let c = &cs[i];
                let kind = opt_string(c.get("type"));
                let status = opt_string(c.get("status"));
                match (kind, status) {
                    (Some(kind), Some(status)) => {
                        let read = Condition {
                            kind,
                            status,
                            reason: opt_string(c.get("reason")),
                            message: opt_string(c.get("message")),
                        };
                        out.push(read);
                        assert(out@.map_values(|c: Condition| c@) =~= conditions_in(view.take(i as int)).push(read@));
                    },
                    _ => {},
                }
                i = i + 1;
            }
            assert(view.take(cs@.len() as int) =~= view);
            out
        },
    }
}

/// The first condition of the kind, if there is one.
pub open spec fn first_of(cs: Seq<ConditionV>, kind: Seq<char>) -> Option<ConditionV>
    decreases cs.len(),
{
    if cs.len() == 0 {
        None
    } else if cs[0].kind == kind {
        Some(cs[0])
    } else {
        first_of(cs.drop_first(), kind)
    }
}

/// The first condition of the kind, if it reports `False`.
pub open spec fn false_of(cs: Seq<ConditionV>, kind: Seq<char>) -> Option<ConditionV> {
    match first_of(cs, kind) {
        Some(c) => if false_spec(c) { Some(c) } else { None },
        None => None,
    }
}

/// What else is false besides readiness: why a pool is not ready.
pub open spec fn causes(cs: Seq<ConditionV>) -> Seq<ConditionV> {
    cs.filter(|c: ConditionV| c.kind != "Ready"@ && false_spec(c))
}

/// The condition a pool fails on, if it fails.
///
/// A pool fails when it is not ready, or when the nodes it launches do not
/// register. A pool that is not ready only because its node class is not is
/// passed: that is the node class's condition, so one broken class never
/// reads as every pool referencing it failing. A condition Karpenter has not
/// settled yet (`Unknown`, or absent) is not a failure.
pub open spec fn failing(cs: Seq<ConditionV>) -> Option<ConditionV> {
    match false_of(cs, "NodeRegistrationHealthy"@) {
        Some(c) => Some(c),
        None => match false_of(cs, "Ready"@) {
            None => None,
            Some(ready) => {
                let why = causes(cs);
                if why.len() > 0 && (forall|k: int| 0 <= k < why.len() ==> #[trigger] why[k].kind == "NodeClassReady"@) {
                    None
                } else if why.len() > 0 {
                    Some(why[0])
                } else {
                    Some(ready)
                }
            },
        },
    }
}

/// The instance a pool files, graded on its conditions.
pub open spec fn grade_spec(pool: Seq<char>, cs: Seq<ConditionV>) -> InstanceV {
    match failing(cs) {
        Some(c) => InstanceV {
            label: pool,
            observed: CheckResult::Failed,
            detail: Some(
                JsonV::Object(
                    seq![
                        ("condition"@, JsonV::Str(c.kind)),
                        ("message"@, str_or_null(c.message)),
                        ("pool"@, JsonV::Str(pool)),
                        ("reason"@, str_or_null(c.reason)),
                    ],
                ),
            ),
        },
        None => InstanceV {
            label: pool,
            observed: CheckResult::Passed,
            detail: Some(JsonV::Object(seq![("pool"@, JsonV::Str(pool))])),
        },
    }
}

/// The first condition of the kind.
fn find_kind(conditions: &[Condition], kind: &str) -> (r: Option<usize>)
    ensures
        match r {
            Some(k) => k < conditions@.len() && first_of(conditions@.map_values(|c: Condition| c@), kind@) == Some(conditions@[k as int]@),
            None => first_of(conditions@.map_values(|c: Condition| c@), kind@) is None,
        },
{
    let ghost cs = conditions@.map_values(|c: Condition| c@);
    let mut i: usize = 0;
    assert(cs.skip(0) =~= cs);
    while i < conditions.len()
        invariant
            i <= conditions@.len(),
            cs == conditions@.map_values(|c: Condition| c@),
            first_of(cs, kind@) == first_of(cs.skip(i as int), kind@),
        decreases conditions@.len() - i,
    {
        assert(cs.skip(i as int).drop_first() =~= cs.skip(i + 1));
        assert(cs.skip(i as int)[0] == conditions@[i as int]@);
        if str_eq(conditions[i].kind.as_str(), kind) {
            return Some(i);
        }
        i = i + 1;
    }
    None
}

/// The first condition of the kind, if it reports `False`.
fn false_kind(conditions: &[Condition], kind: &str) -> (r: Option<usize>)
    ensures
        match r {
            Some(k) => k < conditions@.len() && false_of(conditions@.map_values(|c: Condition| c@), kind@) == Some(conditions@[k as int]@),
            None => false_of(conditions@.map_values(|c: Condition| c@), kind@) is None,
        },
{
    match find_kind(conditions, kind) {
        Some(k) => if conditions[k].is_false() { Some(k) } else { None },
        None => None,
    }
}

/// Grade one pool.
pub fn grade(pool: &str, conditions: &[Condition]) -> (i: SubstrateInstance)
    ensures
        i@ == grade_spec(pool@, conditions@.map_values(|c: Condition| c@)),
{
    let ghost cs = conditions@.map_values(|c: Condition| c@);
    let failing_at: Option<usize> = match false_kind(conditions, "NodeRegistrationHealthy") {
        Some(k) => Some(k),
        None => match false_kind(conditions, "Ready") {
            None => None,
            Some(ready) => {
                // What else is false says why the pool is not ready.
                let ghost why = causes(cs);
                let mut first: Option<usize> = None;
                let mut only_node_class = true;
                let mut i: usize = 0;
                let ghost mut seen: Seq<ConditionV> = Seq::empty();
                while i < conditions.len()
                    invariant
                        i <= conditions@.len(),
                        cs == conditions@.map_values(|c: Condition| c@),
                        seen == cs.take(i as int).filter(|c: ConditionV| c.kind != "Ready"@ && false_spec(c)),
                        first matches Some(f) ==> f < conditions@.len() && seen.len() > 0 && seen[0] == cs[f as int],
                        first is None ==> seen.len() == 0,
                        only_node_class == (forall|k: int| 0 <= k < seen.len() ==> #[trigger] seen[k].kind == "NodeClassReady"@),
                    decreases conditions@.len() - i,
                {
                    proof {
                        reveal(Seq::filter);
                        assert(cs.take(i + 1).drop_last() =~= cs.take(i as int));
                        assert(cs.take(i + 1).last() == cs[i as int]);
                    }
                    let c = &conditions[i];
                    if !str_eq(c.kind.as_str(), "Ready") && c.is_false() {
                        proof {
                            let before = seen;
                            seen = seen.push(cs[i as int]);
                            assert forall|k: int| 0 <= k < before.len() implies seen[k] == before[k] by {}
                            assert(seen[before.len() as int] == cs[i as int]);
                        }
                        if first.is_none() {
                            first = Some(i);
                        }
                        let is_class = str_eq(c.kind.as_str(), "NodeClassReady");
                        if !is_class {
                            only_node_class = false;
                        }
                        proof {
                            let n = (seen.len() - 1) as int;
                            assert(seen[n].kind == cs[i as int].kind);
                            if only_node_class {
                                assert forall|k: int| 0 <= k < seen.len() implies #[trigger] seen[k].kind == "NodeClassReady"@ by {
                                    if k < n {
                                    }
                                }
                            } else {
                                if !is_class {
                                    assert(!(seen[n].kind == "NodeClassReady"@));
                                }
                            }
                        }
                    }
                    i = i + 1;
                }
                proof {
                    assert(cs.take(conditions@.len() as int) =~= cs);
                }
                match first {
                    Some(f) => if only_node_class { None } else { Some(f) },
                    None => Some(ready),
                }
            },
        },
    };
    match failing_at {
        Some(k) => {
            let c = &conditions[k];
            let mut e: Vec<(String, Json)> = Vec::new();
            e.push(entry("condition", Json::String(c.kind.clone())));
            e.push(entry("message", text_or_null(&c.message)));
            e.push(entry("pool", text(pool)));
            e.push(entry("reason", text_or_null(&c.reason)));
            assert(entries_view(e@) =~= seq![
                ("condition"@, JsonV::Str(c.kind@)),
                ("message"@, str_or_null(c@.message)),
                ("pool"@, JsonV::Str(pool@)),
                ("reason"@, str_or_null(c@.reason)),
            ]);
            let detail = object(e);
            SubstrateInstance { label: owned(pool), observed: CheckResult::Failed, detail: Some(detail) }
        },
        None => {
            let mut e: Vec<(String, Json)> = Vec::new();
            e.push(entry("pool", text(pool)));
            assert(entries_view(e@) =~= seq![("pool"@, JsonV::Str(pool@))]);
            let detail = object(e);
            SubstrateInstance { label: owned(pool), observed: CheckResult::Passed, detail: Some(detail) }
        },
    }
}

/// What Karpenter said about a failing pool: its message, else the condition
/// it fails on, else that it is not ready.
pub open spec fn said(detail: Option<JsonV>) -> Seq<char> {
    match jstr(jget(detail, "message"@)) {
        Some(m) => m,
        None => match jstr(jget(detail, "condition"@)) {
            Some(c) => c,
            None => "not ready"@,
        },
    }
}

/// The line an operator reads for each failing pool.
pub open spec fn failing_lines(instances: Seq<InstanceV>) -> Seq<Seq<char>>
    decreases instances.len(),
{
    if instances.len() == 0 {
        Seq::empty()
    } else {
        let rest = failing_lines(instances.drop_last());
        let i = instances.last();
        if i.observed != CheckResult::Passed {
            rest.push(i.label + ": "@ + said(i.detail))
        } else {
            rest
        }
    }
}

/// What an operator reads for the check as a whole: the failing pools, each
/// with what Karpenter said about it; or, with none failing, how many pools
/// are healthy.
pub open spec fn message_spec(instances: Seq<InstanceV>) -> Seq<char> {
    let lines = failing_lines(instances);
    if lines.len() == 0 {
        decimal_spec(instances.len()) + " node pools healthy"@
    } else {
        joined(lines, "; "@)
    }
}

/// What Karpenter said, as text, from an instance's detail.
fn said_of(detail: &Option<Json>) -> (r: String)
    ensures
        r@ == said(crate::relay::protocol::opt_json(*detail)),
{
    let d = match detail {
        Some(d) => d,
        None => {
            return owned("not ready");
        },
    };
    match d.get("message") {
        Some(m) => match m.as_str() {
            Some(s) => {
                return owned(s);
            },
            None => {},
        },
        None => {},
    }
    match d.get("condition") {
        Some(c) => match c.as_str() {
            Some(s) => {
                return owned(s);
            },
            None => {},
        },
        None => {},
    }
    owned("not ready")
}

/// What an operator reads for the check as a whole.
pub fn message(instances: &[SubstrateInstance]) -> (m: String)
    requires
        instances@.len() <= u64::MAX,
    ensures
        m@ == message_spec(instances_view(instances@)),
{
    let ghost v = instances_view(instances@);
    let mut lines: Vec<String> = Vec::new();
    let mut i: usize = 0;
    while i < instances.len()
        invariant
            i <= instances@.len(),
            v == instances_view(instances@),
            lines@.map_values(|l: String| l@) == failing_lines(v.take(i as int)),
        decreases instances@.len() - i,
    {
        assert(v.take(i + 1).drop_last() =~= v.take(i as int));
        assert(v.take(i + 1).last() == instances@[i as int]@);
        let inst = &instances[i];
        if inst.observed != CheckResult::Passed {
            let mut line = inst.label.clone();
            push_str(&mut line, ": ");
            let s = said_of(&inst.detail);
            push_str(&mut line, s.as_str());
            lines.push(line);
            assert(lines@.map_values(|l: String| l@) =~= failing_lines(v.take(i as int)).push(
                inst.label@ + ": "@ + said(inst@.detail),
            ));
        }
        i = i + 1;
    }
    assert(v.take(instances@.len() as int) =~= v);
    if lines.len() == 0 {
        let mut m = decimal(instances.len() as u64);
        push_str(&mut m, " node pools healthy");
        m
    } else {
        join(lines.as_slice(), "; ")
    }
}

} // verus!
