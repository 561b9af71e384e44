//! Workloads broadly not running: the share of what the cluster's workloads
//! ask for that is ready, and the grader turning a stream of shares into a
//! result through bands, hysteresis and holds.
//!
//! A moment is a count of nanoseconds on the relay's monotonic clock.

use vstd::prelude::*;
use crate::status::CheckResult;
use crate::text::str_eq;

verus! {

/// What one workload asks for and has ready.
#[derive(Debug, Clone, Copy, PartialEq, Eq, Structural)]
pub struct Replicas {
    pub desired: u64,
    pub ready: u64,
}

impl Replicas {
    /// A workload's contribution. Readiness is capped at what it asks for, so a
    /// rollout surging above its replica count is not counted as more than
    /// fully running.
    pub fn new(desired: u64, ready: u64) -> (r: Self)
        ensures
            r.desired == desired,
            r.ready == if ready <= desired { ready } else { desired },
    {
        Replicas { desired, ready: if ready <= desired { ready } else { desired } }
    }
}

impl Default for Replicas {
    fn default() -> (r: Self)
        ensures
            r.desired == 0 && r.ready == 0,
    {
        Replicas { desired: 0, ready: 0 }
    }
}

/// What the workloads ask for, summed.
pub open spec fn desired_sum(ws: Seq<Replicas>) -> int
    decreases ws.len(),
{
    if ws.len() == 0 {
        0
    } else {
        desired_sum(ws.drop_last()) + ws.last().desired
    }
}

/// What the workloads have ready, summed.
pub open spec fn ready_sum(ws: Seq<Replicas>) -> int
    decreases ws.len(),
{
    if ws.len() == 0 {
        0
    } else {
        ready_sum(ws.drop_last()) + ws.last().ready
    }
}

/// The cluster's workloads summed. A workload scaled to zero asks for nothing,
/// so it adds nothing to either side.
#[derive(Debug, Clone, Copy, PartialEq, Eq, Structural)]
pub struct Share {
    pub desired: u64,
    pub ready: u64,
}

impl Default for Share {
    fn default() -> (s: Self)
        ensures
            s.desired == 0 && s.ready == 0,
    {
        Share { desired: 0, ready: 0 }
    }
}

proof fn lemma_sums_grow(ws: Seq<Replicas>, i: int)
    requires
        0 <= i <= ws.len(),
    ensures
        desired_sum(ws.take(i)) <= desired_sum(ws),
        ready_sum(ws.take(i)) <= ready_sum(ws),
    decreases ws.len() - i,
{
    if i < ws.len() {
        lemma_sums_grow(ws, i + 1);
        assert(ws.take(i + 1).drop_last() =~= ws.take(i));
    } else {
        assert(ws.take(i) =~= ws);
    }
}

/// The sums add over a concatenation.
proof fn lemma_sums_add(xs: Seq<Replicas>, ys: Seq<Replicas>)
    ensures
        desired_sum(xs + ys) == desired_sum(xs) + desired_sum(ys),
        ready_sum(xs + ys) == ready_sum(xs) + ready_sum(ys),
    decreases ys.len(),
{
    if ys.len() == 0 {
        assert(xs + ys =~= xs);
    } else {
        lemma_sums_add(xs, ys.drop_last());
        assert((xs + ys).drop_last() =~= xs + ys.drop_last());
        assert((xs + ys).last() == ys.last());
    }
}

/// Where every workload has no more ready than it asks for, neither do the
/// workloads together.
proof fn lemma_ready_within_desired(ws: Seq<Replicas>)
    requires
        forall|i: int| 0 <= i < ws.len() ==> (#[trigger] ws[i]).ready <= ws[i].desired,
    ensures
        ready_sum(ws) <= desired_sum(ws),
    decreases ws.len(),
{
    if ws.len() > 0 {
        assert forall|i: int| 0 <= i < ws.drop_last().len() implies (#[trigger] ws.drop_last()[i]).ready <= ws.drop_last()[i].desired by {
            assert(ws.drop_last()[i] == ws[i]);
        }
        lemma_ready_within_desired(ws.drop_last());
        assert(ws.last() == ws[ws.len() - 1]);
    }
}

/// The laws of summing workloads: nothing sums to nothing, the sum of two
/// lists together is the sum of each, so the order they come in does not
/// matter and a workload asking for nothing changes nothing, and where no
/// workload has more ready than it asks for, neither does the whole.
pub proof fn law_shares_add(xs: Seq<Replicas>, ys: Seq<Replicas>)
    ensures
        desired_sum(Seq::<Replicas>::empty()) == 0,
        ready_sum(Seq::<Replicas>::empty()) == 0,
        desired_sum(xs + ys) == desired_sum(xs) + desired_sum(ys),
        ready_sum(xs + ys) == ready_sum(xs) + ready_sum(ys),
        desired_sum(xs + ys) == desired_sum(ys + xs),
        ready_sum(xs + ys) == ready_sum(ys + xs),
        desired_sum(xs.push(Replicas { desired: 0, ready: 0 })) == desired_sum(xs),
        ready_sum(xs.push(Replicas { desired: 0, ready: 0 })) == ready_sum(xs),
        (forall|i: int| 0 <= i < xs.len() ==> (#[trigger] xs[i]).ready <= xs[i].desired) ==> ready_sum(xs) <= desired_sum(xs),
{
    lemma_sums_add(xs, ys);
    lemma_sums_add(ys, xs);
    let z = xs.push(Replicas { desired: 0, ready: 0 });
    assert(z.drop_last() =~= xs);
    if forall|i: int| 0 <= i < xs.len() ==> (#[trigger] xs[i]).ready <= xs[i].desired {
        lemma_ready_within_desired(xs);
    }
}

impl Share {
    /// The workloads summed, both sides.
    pub fn sum(workloads: &[Replicas]) -> (s: Self)
        requires
            desired_sum(workloads@) <= u64::MAX,
            ready_sum(workloads@) <= u64::MAX,
        ensures
            s.desired == desired_sum(workloads@),
            s.ready == ready_sum(workloads@),
    {
        let mut acc = Share { desired: 0, ready: 0 };
        let mut i: usize = 0;
        while i < workloads.len()
            invariant
                i <= workloads@.len(),
                desired_sum(workloads@) <= u64::MAX,
                ready_sum(workloads@) <= u64::MAX,
                acc.desired == desired_sum(workloads@.take(i as int)),
                acc.ready == ready_sum(workloads@.take(i as int)),
            decreases workloads@.len() - i,
        {
            proof {
                lemma_sums_grow(workloads@, i + 1);
                assert(workloads@.take(i + 1).drop_last() =~= workloads@.take(i as int));
            }
            let w = workloads[i];
            acc = Share { desired: acc.desired + w.desired, ready: acc.ready + w.ready };
            i = i + 1;
        }
        assert(workloads@.take(workloads@.len() as int) =~= workloads@);
        acc
    }
}

/// A count the API reports, with a negative one read as none.
pub fn non_negative(n: i32) -> (r: u64)
    ensures
        r == if n >= 0 { n as int } else { 0 },
{
    if n >= 0 {
        n as u64
    } else {
        0
    }
}

/// A count as a workload's contribution: a negative one is none.
pub open spec fn count_of(n: int) -> u64 {
    if n >= 0 { n as u64 } else { 0 }
}

/// What a workload asking for `desired` and having `ready` contributes.
pub open spec fn replicas_of(desired: u64, ready: u64) -> Replicas {
    Replicas { desired, ready: if ready <= desired { ready } else { desired } }
}

/// A Deployment's or StatefulSet's contribution.
pub open spec fn scaled_spec(replicas: Option<i32>, ready: Option<i32>) -> Replicas {
    replicas_of(
        count_of(match replicas { Some(n) => n as int, None => 1 }),
        count_of(match ready { Some(n) => n as int, None => 0 }),
    )
}

/// A DaemonSet's contribution.
pub open spec fn daemon_spec(desired_scheduled: i32, ready: i32) -> Replicas {
    replicas_of(count_of(desired_scheduled as int), count_of(ready as int))
}

/// A CNPG database cluster's contribution, or nothing where it is hibernated.
pub open spec fn database_spec(instances: Option<i64>, ready_instances: Option<i64>, hibernation: Option<Seq<char>>) -> Option<Replicas> {
    if hibernation == Some("on"@) {
        None
    } else {
        Some(
            replicas_of(
                count_of(match instances { Some(n) => n as int, None => 0 }),
                count_of(match ready_instances { Some(n) => n as int, None => 0 }),
            ),
        )
    }
}

/// A Deployment or a StatefulSet: its replica count, defaulting to one as the
/// API does, against its ready replicas.
pub fn scaled(replicas: Option<i32>, ready: Option<i32>) -> (r: Replicas)
    ensures
        ({
            let d = match replicas { Some(n) => if n >= 0 { n as int } else { 0 }, None => 1 };
            let k = match ready { Some(n) => if n >= 0 { n as int } else { 0 }, None => 0 };
            r.desired == d && r.ready == if k <= d { k } else { d }
        }),
        r == scaled_spec(replicas, ready),
{
    let desired = match replicas {
        Some(n) => n,
        None => 1,
    };
    let have = match ready {
        Some(n) => n,
        None => 0,
    };
    Replicas::new(non_negative(desired), non_negative(have))
}

/// A DaemonSet: the nodes it should be scheduled on, against those where it is
/// ready.
pub fn daemon(desired_scheduled: i32, ready: i32) -> (r: Replicas)
    ensures
        ({
            let d = if desired_scheduled >= 0 { desired_scheduled as int } else { 0 };
            let k = if ready >= 0 { ready as int } else { 0 };
            r.desired == d && r.ready == if k <= d { k } else { d }
        }),
        r == daemon_spec(desired_scheduled, ready),
{
    Replicas::new(non_negative(desired_scheduled), non_negative(ready))
}

/// A CNPG database cluster, or nothing where it is hibernated.
pub fn database(instances: Option<i64>, ready_instances: Option<i64>, hibernation: Option<&str>) -> (r:
    Option<Replicas>)
    ensures
        (hibernation matches Some(h) && h@ == "on"@) ==> r is None,
        !(hibernation matches Some(h) && h@ == "on"@) ==> (r matches Some(w) && ({
            let d = match instances { Some(n) => if n >= 0 { n as int } else { 0 }, None => 0 };
            let k = match ready_instances { Some(n) => if n >= 0 { n as int } else { 0 }, None => 0 };
            w.desired == d && w.ready == if k <= d { k } else { d }
        })),
        r == database_spec(instances, ready_instances, match hibernation { Some(h) => Some(h@), None => None }),
{
    if let Some(h) = hibernation {
        if str_eq(h, "on") {
            return None;
        }
    }
    let desired: u64 = match instances {
        Some(n) => if n >= 0 { n as u64 } else { 0 },
        None => 0,
    };
    let have: u64 = match ready_instances {
        Some(n) => if n >= 0 { n as u64 } else { 0 },
        None => 0,
    };
    Some(Replicas::new(desired, have))
}

/// How long, in nanoseconds, the share must stay under 70% before it fails.
pub const FAIL_SOON_AFTER: u64 = 120_000_000_000;

/// How long, in nanoseconds, the share must stay under 80% before it fails.
pub const FAIL_AFTER: u64 = 300_000_000_000;

/// How long, in nanoseconds, the share must stay under 90% before it warns.
pub const WARN_AFTER: u64 = 300_000_000_000;

/// The longest hold, which is how much history a freshly started relay needs
/// before any result is determined by it.
pub const LONGEST_HOLD: u64 = 300_000_000_000;

/// Whether the share ready is under `line` percent. A cluster asking for
/// nothing is fully running.
pub open spec fn below(share: Share, line: int) -> bool {
    share.desired > 0 && share.ready * 100 < line * share.desired
}

/// Whether the share ready is over `line` percent.
pub open spec fn above(share: Share, line: int) -> bool {
    share.desired == 0 || share.ready * 100 > line * share.desired
}

fn share_below(share: Share, line: u64) -> (r: bool)
    requires
        line <= 100,
    ensures
        r == below(share, line as int),
{
    let scaled_ready = (share.ready as u128) * 100;
    assert((line as u128) * (share.desired as u128) <= 100 * 0xffff_ffff_ffff_ffffu128)
        by (nonlinear_arith)
        requires
            line <= 100,
            share.desired <= 0xffff_ffff_ffff_ffffu64,
    ;
    share.desired > 0 && scaled_ready < (line as u128) * (share.desired as u128)
}

fn share_above(share: Share, line: u64) -> (r: bool)
    requires
        line <= 100,
    ensures
        r == above(share, line as int),
{
    let scaled_ready = (share.ready as u128) * 100;
    assert((line as u128) * (share.desired as u128) <= 100 * 0xffff_ffff_ffff_ffffu128)
        by (nonlinear_arith)
        requires
            line <= 100,
            share.desired <= 0xffff_ffff_ffff_ffffu64,
    ;
    share.desired == 0 || scaled_ready > (line as u128) * (share.desired as u128)
}

/// When the share went under each line and has stayed there.
#[derive(Debug, Clone, Copy, PartialEq, Eq, Structural)]
pub struct Lines {
    /// Under 50%.
    pub fifty: Option<u64>,
    /// Under 70%.
    pub seventy: Option<u64>,
    /// Under 80%.
    pub eighty: Option<u64>,
    /// Under 90%.
    pub ninety: Option<u64>,
}

/// Turns the share over time into the check's result.
///
/// Holds are each timed from when the share went under that line and stayed
/// there, and the most urgent that holds is the result. Recovery is not held,
/// but it is hysteretic: a warning passes again only above 95%, and a failure
/// lifts only above 85%.
#[derive(Debug, Clone, Copy, PartialEq, Eq, Structural)]
pub struct Grader {
    /// When the relay started watching.
    started: u64,
    /// The result last determined.
    result: Option<CheckResult>,
    /// When the share went under each line.
    under: Lines,
}

/// Whether a result is one a grader can hold: none yet, or a graded one.
pub open spec fn graded(r: Option<CheckResult>) -> bool {
    ||| r is None
    ||| r == Some(CheckResult::Passed)
    ||| r == Some(CheckResult::Warning)
    ||| r == Some(CheckResult::Failed)
}

impl Grader {
    /// Every grader holds a result a grader can hold: `new` and `resume`
    /// make one that does, and `observe` keeps it so.
    #[verifier::type_invariant]
    pub closed spec fn wf(self) -> bool {
        graded(self.result)
    }

    /// When the relay started watching.
    pub closed spec fn started_at(self) -> u64 {
        self.started
    }

    /// The result last determined, if any.
    pub closed spec fn holds(self) -> Option<CheckResult> {
        self.result
    }

    /// When the share went under each line.
    pub closed spec fn marks(self) -> Lines {
        self.under
    }
}

/// How long from `since` to `now`, or nothing where `now` is earlier.
pub open spec fn elapsed(since: u64, now: u64) -> int {
    if now >= since {
        now - since
    } else {
        0
    }
}

/// A line's mark after an observation: kept while the share stays under it,
/// set where it has just gone under, cleared where it is over.
pub open spec fn marked(since: Option<u64>, under: bool, now: u64, started: u64) -> Option<u64> {
    if under {
        match since {
            Some(s) => Some(s),
            None => Some(if now >= started { now } else { started }),
        }
    } else {
        None
    }
}

/// Whether a mark has held for `hold` by `now`.
pub open spec fn held(since: Option<u64>, now: u64, hold: u64) -> bool {
    since matches Some(s) && elapsed(s, now) >= hold
}

/// The marks after observing `share` at `now`.
pub open spec fn lines_after(g: Grader, share: Share, now: u64) -> Lines {
    Lines {
        fifty: marked(g.marks().fifty, below(share, 50), now, g.started_at()),
        seventy: marked(g.marks().seventy, below(share, 70), now, g.started_at()),
        eighty: marked(g.marks().eighty, below(share, 80), now, g.started_at()),
        ninety: marked(g.marks().ninety, below(share, 90), now, g.started_at()),
    }
}

/// What the share has fallen to and held at, if anything.
pub open spec fn degraded(lines: Lines, share: Share, now: u64) -> Option<CheckResult> {
    if below(share, 50) || held(lines.seventy, now, FAIL_SOON_AFTER) || held(
        lines.eighty,
        now,
        FAIL_AFTER,
    ) {
        Some(CheckResult::Failed)
    } else if held(lines.ninety, now, WARN_AFTER) {
        Some(CheckResult::Warning)
    } else {
        None
    }
}

/// Where the last result goes on this share, recovering only past its edge
/// by the hysteresis margin.
pub open spec fn recovered_spec(last: CheckResult, share: Share) -> CheckResult {
    match last {
        CheckResult::Failed => if above(share, 95) {
            CheckResult::Passed
        } else if above(share, 85) {
            CheckResult::Warning
        } else {
            CheckResult::Failed
        },
        CheckResult::Warning => if above(share, 95) {
            CheckResult::Passed
        } else {
            CheckResult::Warning
        },
        other => other,
    }
}

/// The band the share falls in, with no history.
pub open spec fn band_spec(share: Share) -> CheckResult {
    if !below(share, 90) {
        CheckResult::Passed
    } else if !below(share, 80) {
        CheckResult::Warning
    } else {
        CheckResult::Failed
    }
}

/// The more urgent of a result and an optional one.
pub open spec fn most_urgent_spec(a: CheckResult, b: Option<CheckResult>) -> CheckResult {
    match b {
        Some(b) => if b.urgency() < a.urgency() {
            b
        } else {
            a
        },
        None => a,
    }
}

/// The result for observing `share` at `now`.
pub open spec fn observed(g: Grader, share: Share, now: u64) -> Option<CheckResult> {
    let lines = lines_after(g, share, now);
    let degraded = degraded(lines, share, now);
    match g.holds() {
        Some(last) => Some(most_urgent_spec(recovered_spec(last, share), degraded)),
        None => if above(share, 95) {
            Some(CheckResult::Passed)
        } else if degraded is Some {
            degraded
        } else if elapsed(g.started_at(), now) >= LONGEST_HOLD {
            Some(band_spec(share))
        } else {
            None
        },
    }
}

/// The grader after observing `share` at `now`.
pub closed spec fn after(g: Grader, share: Share, now: u64) -> Grader {
    let r = observed(g, share, now);
    Grader {
        started: g.started,
        result: if r is Some {
            r
        } else {
            g.result
        },
        under: lines_after(g, share, now),
    }
}

/// Where the last result goes on this share.
pub fn recovered(last: CheckResult, share: Share) -> (r: CheckResult)
    ensures
        r == recovered_spec(last, share),
{
    match last {
        CheckResult::Failed => if share_above(share, 95) {
            CheckResult::Passed
        } else if share_above(share, 85) {
            CheckResult::Warning
        } else {
            CheckResult::Failed
        },
        CheckResult::Warning => if share_above(share, 95) {
            CheckResult::Passed
        } else {
            CheckResult::Warning
        },
        other => other,
    }
}

/// The band the share falls in.
pub fn band(share: Share) -> (r: CheckResult)
    ensures
        r == band_spec(share),
{
    if !share_below(share, 90) {
        CheckResult::Passed
    } else if !share_below(share, 80) {
        CheckResult::Warning
    } else {
        CheckResult::Failed
    }
}

/// The more urgent of `a` and `b`, keeping `a` on a tie.
pub fn most_urgent(a: CheckResult, b: Option<CheckResult>) -> (r: CheckResult)
    ensures
        r == most_urgent_spec(a, b),
{
    match b {
        Some(b) => if b.urgency_rank() < a.urgency_rank() {
            b
        } else {
            a
        },
        None => a,
    }
}

fn mark(since: Option<u64>, under: bool, now: u64, started: u64) -> (r: Option<u64>)
    ensures
        r == marked(since, under, now, started),
{
    if under {
        match since {
            Some(s) => Some(s),
            None => Some(if now >= started { now } else { started }),
        }
    } else {
        None
    }
}

fn has_held(since: Option<u64>, now: u64, hold: u64) -> (r: bool)
    ensures
        r == held(since, now, hold),
{
    match since {
        Some(s) => (if now >= s { now - s } else { 0 }) >= hold,
        None => false,
    }
}

impl Grader {
    /// A grader for a relay that started watching at `started`.
    pub fn new(started: u64) -> (g: Self)
        ensures
            g.started_at() == started,
            g.holds() is None,
            g.marks() == (Lines { fifty: None, seventy: None, eighty: None, ninety: None }),
    {
        Grader {
            started,
            result: None,
            under: Lines { fifty: None, seventy: None, eighty: None, ninety: None },
        }
    }

    /// A grader that started watching at `started` and has since settled on
    /// `result`, with the share over every line.
    pub fn resume(started: u64, result: CheckResult) -> (g: Self)
        requires
            graded(Some(result)),
        ensures
            g.started_at() == started,
            g.holds() == Some(result),
            g.marks() == (Lines { fifty: None, seventy: None, eighty: None, ninety: None }),
    {
        Grader {
            started,
            result: Some(result),
            under: Lines { fifty: None, seventy: None, eighty: None, ninety: None },
        }
    }

    /// The result for this observation, or `None` while a freshly started
    /// relay does not yet hold the history the result depends on.
    pub fn observe(&mut self, share: Share, now: u64) -> (r: Option<CheckResult>)
        ensures
            r == observed(*old(self), share, now),
            *final(self) == after(*old(self), share, now),
            final(self).started_at() == old(self).started_at(),
            final(self).marks() == lines_after(*old(self), share, now),
            final(self).holds() == (if r is Some { r } else { old(self).holds() }),
            graded(r),
            old(self).holds() is Some ==> r is Some,
            below(share, 50) ==> r == Some(CheckResult::Failed),
            above(share, 95) ==> r == Some(CheckResult::Passed),
    {
        proof {
            use_type_invariant(&*self);
        }
        let lines = Lines {
            fifty: mark(self.under.fifty, share_below(share, 50), now, self.started),
            seventy: mark(self.under.seventy, share_below(share, 70), now, self.started),
            eighty: mark(self.under.eighty, share_below(share, 80), now, self.started),
            ninety: mark(self.under.ninety, share_below(share, 90), now, self.started),
        };
        let degraded = if share_below(share, 50) || has_held(lines.seventy, now, FAIL_SOON_AFTER)
            || has_held(lines.eighty, now, FAIL_AFTER) {
            Some(CheckResult::Failed)
        } else if has_held(lines.ninety, now, WARN_AFTER) {
            Some(CheckResult::Warning)
        } else {
            None
        };
        let result = match self.result {
            Some(last) => Some(most_urgent(recovered(last, share), degraded)),
            None => if share_above(share, 95) {
                Some(CheckResult::Passed)
            } else if degraded.is_some() {
                degraded
            } else if (if now >= self.started { now - self.started } else { 0 }) >= LONGEST_HOLD {
                Some(band(share))
            } else {
                None
            },
        };
        self.under = lines;
        if result.is_some() {
            self.result = result;
        }
        result
    }
}

/// A share under half fails at once, whatever the grader held before.
pub proof fn law_a_collapse_fails_at_once(g: Grader, share: Share, now: u64)
    requires
        below(share, 50),
    ensures
        observed(g, share, now) == Some(CheckResult::Failed),
{
}

/// Once a grader holds a result it files one on every observation, and holds
/// what it filed.
pub proof fn law_a_held_result_is_always_filed(g: Grader, share: Share, now: u64)
    requires
        g.holds() is Some,
    ensures
        observed(g, share, now) is Some,
        after(g, share, now).holds() == observed(g, share, now),
{
}

/// Above 95% a grader passes, whatever it held before.
pub proof fn law_above_the_margin_passes(g: Grader, share: Share, now: u64)
    requires
        g.wf(),
        above(share, 95),
    ensures
        observed(g, share, now) == Some(CheckResult::Passed),
{
}

/// What a grader files is a result a grader can hold, and it keeps holding
/// one.
pub proof fn law_a_grader_holds_only_graded_results(g: Grader, share: Share, now: u64)
    requires
        g.wf(),
    ensures
        graded(observed(g, share, now)),
        after(g, share, now).wf(),
{
}

/// A warning passes again only above 95%.
pub proof fn law_a_warning_passes_only_above_the_margin(g: Grader, share: Share, now: u64)
    requires
        g.holds() == Some(CheckResult::Warning),
        !above(share, 95),
    ensures
        observed(g, share, now) != Some(CheckResult::Passed),
{
}

/// A failure lifts only above 85%.
pub proof fn law_a_failure_lifts_only_above_the_margin(g: Grader, share: Share, now: u64)
    requires
        g.holds() == Some(CheckResult::Failed),
        !above(share, 85),
    ensures
        observed(g, share, now) == Some(CheckResult::Failed),
{
}

/// Recovery is not held: above 95% a grader holding a graded result passes
/// at once.
pub proof fn law_recovery_is_not_held(g: Grader, share: Share, now: u64)
    requires
        g.holds() == Some(CheckResult::Passed) || g.holds() == Some(CheckResult::Warning)
            || g.holds() == Some(CheckResult::Failed),
        above(share, 95),
    ensures
        observed(g, share, now) == Some(CheckResult::Passed),
{
}

/// A share that has stayed under 90% for the warning hold files a warning or
/// worse.
pub proof fn law_a_held_dip_warns(g: Grader, share: Share, now: u64, since: u64)
    requires
        below(share, 90),
        g.marks().ninety == Some(since),
        elapsed(since, now) >= WARN_AFTER,
    ensures
        observed(g, share, now) matches Some(r) && r.urgency() <= CheckResult::Warning.urgency(),
{
}

/// A share that has stayed under 80% for the failure hold fails.
pub proof fn law_a_held_fall_fails(g: Grader, share: Share, now: u64, since: u64)
    requires
        below(share, 80),
        g.marks().eighty == Some(since),
        elapsed(since, now) >= FAIL_AFTER,
    ensures
        observed(g, share, now) == Some(CheckResult::Failed),
{
}

/// A share that has stayed under 70% for the shorter hold fails.
pub proof fn law_a_held_slump_fails(g: Grader, share: Share, now: u64, since: u64)
    requires
        below(share, 70),
        g.marks().seventy == Some(since),
        elapsed(since, now) >= FAIL_SOON_AFTER,
    ensures
        observed(g, share, now) == Some(CheckResult::Failed),
{
}

/// A freshly started grader files nothing for a share between 50% and 95%
/// until its longest hold has run.
pub proof fn law_a_fresh_relay_waits_out_the_middle(g: Grader, share: Share, now: u64)
    requires
        g.holds() is None,
        g.marks() == (Lines { fifty: None, seventy: None, eighty: None, ninety: None }),
        !below(share, 50),
        !above(share, 95),
        elapsed(g.started_at(), now) < LONGEST_HOLD,
    ensures
        observed(g, share, now) is None,
{
}

/// Each hold is timed from when the share went under its line and stayed
/// there: a mark is set only while the share is under the line, and a mark
/// already set is kept.
pub proof fn law_holds_are_timed_from_going_under(g: Grader, share: Share, now: u64)
    ensures
        after(g, share, now).marks().ninety is Some <==> below(share, 90),
        after(g, share, now).marks().eighty is Some <==> below(share, 80),
        after(g, share, now).marks().seventy is Some <==> below(share, 70),
        below(share, 90) && g.marks().ninety is Some ==> after(g, share, now).marks().ninety
            == g.marks().ninety,
        below(share, 80) && g.marks().eighty is Some ==> after(g, share, now).marks().eighty
            == g.marks().eighty,
        below(share, 70) && g.marks().seventy is Some ==> after(g, share, now).marks().seventy
            == g.marks().seventy,
{
}

} // verus!
