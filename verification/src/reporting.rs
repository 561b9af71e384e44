//! Reporting-schema builds: which pairs of group and Tamanu version have a
//! schema, which have been tried, which an operator has asked for again, and
//! what the check filed for a group says.

use vstd::prelude::*;
use crate::json::{Json, JsonV, entry, jget, jstr, object, text};
use crate::relay::order::{lex_less, lex_lt};
use crate::status::CheckResult;
use crate::text::{decimal, decimal_spec, join, joined, push_str, str_eq};
use crate::artifacts::matching::SemVer;

verus! {

broadcast use vstd::seq_lib::group_to_multiset_ensures;

/// A build of one pair, hanging off the restore report that carried it.
/// Identifiers are UUIDs as integers; `built_at` is nanoseconds since the Unix
/// epoch.
#[derive(Debug)]
pub struct ReportingSchemaBuild {
    /// The restore report this build was reported with.
    pub check_id: i64,
    pub group_id: u128,
    pub version_id: u128,
    pub application_id: Option<u128>,
    /// Whether a schema came out of it.
    pub built: bool,
    /// What went wrong, where it did not.
    pub error: Option<String>,
    /// The artifacts this build registered.
    pub artifact_ids: Vec<Option<u128>>,
    /// When the build was recorded.
    pub built_at: i128,
}

/// A build about to be recorded.
#[derive(Debug)]
pub struct NewReportingSchemaBuild {
    pub group_id: u128,
    pub version_id: u128,
    pub application_id: Option<u128>,
    pub built: bool,
    pub error: Option<String>,
    pub artifact_ids: Vec<u128>,
}

/// An operator asking for a pair's build.
#[derive(Debug)]
pub struct ReportingSchemaRequest {
    pub group_id: u128,
    pub version_id: u128,
    pub requested_at: i128,
    pub requested_by: Option<String>,
}

/// The build a lookup by version finds: the last read for it.
pub open spec fn build_for(builds: Seq<ReportingSchemaBuild>, version: u128) -> Option<ReportingSchemaBuild>
    decreases builds.len(),
{
    if builds.len() == 0 {
        None
    } else if builds.last().version_id == version {
        Some(builds.last())
    } else {
        build_for(builds.drop_last(), version)
    }
}

/// The change time a lookup by version finds: the last read for it.
pub open spec fn change_for(changed: Seq<(u128, i128)>, version: u128) -> Option<i128>
    decreases changed.len(),
{
    if changed.len() == 0 {
        None
    } else if changed.last().0 == version {
        Some(changed.last().1)
    } else {
        change_for(changed.drop_last(), version)
    }
}

/// The build a lookup by version finds.
pub fn find_build(builds: &Vec<ReportingSchemaBuild>, version: u128) -> (r: Option<&ReportingSchemaBuild>)
    ensures
        match build_for(builds@, version) {
            Some(b) => r == Some(&b),
            None => r is None,
        },
{
    let mut i: usize = builds.len();
    assert(builds@.take(i as int) =~= builds@);
    while i > 0
        invariant
            i <= builds@.len(),
            build_for(builds@, version) == build_for(builds@.take(i as int), version),
        decreases i,
    {
        proof {
            assert(builds@.take(i as int).drop_last() =~= builds@.take(i - 1));
        }
        if builds[i - 1].version_id == version {
            return Some(&builds[i - 1]);
        }
        i = i - 1;
    }
    None
}

/// The change time a lookup by version finds.
fn find_change(changed: &Vec<(u128, i128)>, version: u128) -> (r: Option<i128>)
    ensures
        r == change_for(changed@, version),
{
    let mut i: usize = changed.len();
    assert(changed@.take(i as int) =~= changed@);
    while i > 0
        invariant
            i <= changed@.len(),
            change_for(changed@, version) == change_for(changed@.take(i as int), version),
        decreases i,
    {
        proof {
            assert(changed@.take(i as int).drop_last() =~= changed@.take(i - 1));
        }
        if changed[i - 1].0 == version {
            return Some(changed[i - 1].1);
        }
        i = i - 1;
    }
    None
}

/// Whether the version is among these.
fn holds(ids: &Vec<u128>, id: u128) -> (r: bool)
    ensures
        r == ids@.contains(id),
{
    let mut i: usize = 0;
    while i < ids.len()
        invariant
            i <= ids@.len(),
            forall|m: int| 0 <= m < i ==> ids@[m] != id,
        decreases ids@.len() - i,
    {
        if ids[i] == id {
            assert(ids@[i as int] == id);
            return true;
        }
        i = i + 1;
    }
    false
}

/// Where every pair of a group stands: the versions an operator has asked for,
/// the latest build of each version, and when each version's artifacts last
/// changed.
pub struct Settlement {
    requested: Vec<u128>,
    builds: Vec<ReportingSchemaBuild>,
    changed: Vec<(u128, i128)>,
}

impl Settlement {
    /// Whether a pair is settled: no operator has asked for it, it has been
    /// built or has failed, and nothing it reads changed since.
    pub open spec fn settled_spec(requested: Seq<u128>, builds: Seq<ReportingSchemaBuild>, changed: Seq<(u128, i128)>, version: u128) -> bool {
        &&& !requested.contains(version)
        &&& build_for(builds, version) matches Some(b)
        &&& match change_for(changed, version) {
            Some(at) => at <= b.built_at,
            None => true,
        }
    }

    /// Whether the pair for this version is settled.
    pub closed spec fn settles(&self, version: u128) -> bool {
        Self::settled_spec(self.requested@, self.builds@, self.changed@, version)
    }

    /// Where a group's pairs stand, from the three lookups made for it.
    pub fn new(requested: Vec<u128>, builds: Vec<ReportingSchemaBuild>, changed: Vec<(u128, i128)>) -> (s: Settlement)
        ensures
            forall|v: u128| #[trigger] s.settles(v) == Self::settled_spec(requested@, builds@, changed@, v),
    {
        Settlement { requested, builds, changed }
    }

    /// Whether the pair for this version is settled: built or failed, and
    /// either way not dispatched again until its artifacts change or an
    /// operator asks.
    pub fn settled(&self, version: u128) -> (r: bool)
        ensures
            r == self.settles(version),
    {
        if holds(&self.requested, version) {
            return false;
        }
        let build = match find_build(&self.builds, version) {
            Some(b) => b,
            None => {
                return false;
            },
        };
        match find_change(&self.changed, version) {
            Some(at) => at <= build.built_at,
            None => true,
        }
    }
}

/// A pair goes back on the worklist when an operator asks for it, when it
/// has never been tried, and when anything it reads changed after its build.
pub proof fn law_what_unsettles_a_pair(requested: Seq<u128>, builds: Seq<ReportingSchemaBuild>, changed: Seq<(u128, i128)>, version: u128)
    ensures
        requested.contains(version) ==> !Settlement::settled_spec(requested, builds, changed, version),
        build_for(builds, version) is None ==> !Settlement::settled_spec(requested, builds, changed, version),
        (build_for(builds, version) matches Some(b) && change_for(changed, version) matches Some(at) && at > b.built_at) ==> !Settlement::settled_spec(requested, builds, changed, version),
{
}

/// Where a pair stands, for the operator view.
#[derive(Debug, Clone, Copy, PartialEq, Eq, Structural)]
pub enum PairState {
    /// No build has been recorded, so the pair is on the worklist.
    Awaiting,
    /// A build produced a schema.
    Built,
    /// A build ran and produced none.
    Failed,
}

impl PairState {
    /// The lowercase name the state is written as.
    pub fn as_str(self) -> (s: &'static str)
        ensures
            s@ == match self {
                PairState::Awaiting => "awaiting"@,
                PairState::Built => "built"@,
                PairState::Failed => "failed"@,
            },
    {
        match self {
            PairState::Awaiting => "awaiting",
            PairState::Built => "built",
            PairState::Failed => "failed",
        }
    }
}

/// A release of Tamanu Canopy holds, by identifier and number.
#[derive(Debug, Clone, Copy, PartialEq, Eq)]
pub struct ReleaseVersion {
    pub id: u128,
    pub major: u64,
    pub minor: u64,
    pub patch: u64,
    /// Whether the release is published rather than a draft.
    pub published: bool,
}

/// The release written as semver.
pub open spec fn release_text(v: ReleaseVersion) -> Seq<char> {
    decimal_spec(v.major as nat) + "."@ + decimal_spec(v.minor as nat) + "."@ + decimal_spec(v.patch as nat)
}

/// The release written as semver.
pub fn release_string(v: &ReleaseVersion) -> (s: String)
    ensures
        s@ == release_text(*v),
{
    let mut s = decimal(v.major);
    push_str(&mut s, ".");
    let minor = decimal(v.minor);
    push_str(&mut s, minor.as_str());
    push_str(&mut s, ".");
    let patch = decimal(v.patch);
    push_str(&mut s, patch.as_str());
    s
}

/// One pair of group and Tamanu version, and where it stands.
#[derive(Debug)]
pub struct Pair {
    pub group_id: u128,
    pub version_id: u128,
    /// That version as semver, for display.
    pub version: String,
    pub state: PairState,
    /// What went wrong, where a build failed.
    pub error: Option<String>,
    /// Whether an operator has asked for this pair to be built again.
    pub requested: bool,
    /// The group's Tamanu applications reporting this version, by name.
    pub applications: Vec<String>,
}

/// Where a pair stands given its latest build: awaiting without one, built
/// where it produced a schema, failed with the build's error otherwise.
pub open spec fn state_of(build: Option<ReportingSchemaBuild>) -> (PairState, Option<Seq<char>>) {
    match build {
        None => (PairState::Awaiting, None),
        Some(b) => if b.built {
            (PairState::Built, None)
        } else {
            (PairState::Failed, match b.error {
                Some(e) => Some(e@),
                None => None,
            })
        },
    }
}

/// The pairs of a group, from its versions (each with the applications
/// running it), the latest build of each version and the versions an
/// operator has asked for.
pub fn pairs_of_members(
    group: u128,
    versions: Vec<(ReleaseVersion, Vec<String>)>,
    builds: &Vec<ReportingSchemaBuild>,
    requests: &Vec<u128>,
) -> (r: Vec<Pair>)
    ensures
        r@.len() == versions@.len(),
        forall|i: int|
            0 <= i < r@.len() ==> {
                let p = #[trigger] r@[i];
                let v = versions@[i].0;
                &&& p.group_id == group
                &&& p.version_id == v.id
                &&& p.version@ == release_text(v)
                &&& p.applications == versions@[i].1
                &&& p.requested == requests@.contains(v.id)
                &&& (p.state, match p.error {
                    Some(e) => Some(e@),
                    None => None,
                }) == state_of(build_for(builds@, v.id))
            },
{
    let mut rest = versions;
    let ghost orig = rest@;
    assert(orig.len() == rest.len());
    let mut k: usize = 0;
    let mut out: Vec<Pair> = Vec::new();
    while rest.len() > 0
        invariant
            k <= orig.len(),
            orig.len() <= usize::MAX,
            rest@ == orig.skip(k as int),
            rest@.len() == orig.len() - k,
            out@.len() == k,
            forall|i: int|
                0 <= i < out@.len() ==> {
                    let p = #[trigger] out@[i];
                    let v = orig[i].0;
                    &&& p.group_id == group
                    &&& p.version_id == v.id
                    &&& p.version@ == release_text(v)
                    &&& p.applications == orig[i].1
                    &&& p.requested == requests@.contains(v.id)
                    &&& (p.state, match p.error {
                        Some(e) => Some(e@),
                        None => None,
                    }) == state_of(build_for(builds@, v.id))
                },
        decreases rest@.len(),
    {
        let (version, applications) = rest.remove(0);
        proof {
            assert((version, applications) == orig[k as int]);
            assert(rest@ =~= orig.skip(k + 1));
        }
        let (state, error) = match find_build(builds, version.id) {
            None => (PairState::Awaiting, None),
            Some(build) => if build.built {
                (PairState::Built, None)
            } else {
                (PairState::Failed, match &build.error {
                    Some(e) => Some(e.clone()),
                    None => None,
                })
            },
        };
        let text_of = release_string(&version);
        let requested = holds(requests, version.id);
        out.push(Pair {
            group_id: group,
            version_id: version.id,
            version: text_of,
            state,
            error,
            requested,
            applications,
        });
        k = k + 1;
    }
    out
}

/// A live application of a group, as the pairs read it.
#[derive(Debug)]
pub struct Application {
    pub id: u128,
    /// The software it runs, such as `tamanu`.
    pub software: String,
    /// The name it is shown by.
    pub label: String,
}

/// The version an application last reported: the last report read for it.
pub open spec fn reported_for(reported: Seq<(u128, SemVer)>, app: u128) -> Option<SemVer>
    decreases reported.len(),
{
    if reported.len() == 0 {
        None
    } else if reported.last().0 == app {
        Some(reported.last().1)
    } else {
        reported_for(reported.drop_last(), app)
    }
}

/// The first release held with these numbers.
pub open spec fn release_for(released: Seq<ReleaseVersion>, v: SemVer) -> Option<ReleaseVersion>
    decreases released.len(),
{
    if released.len() == 0 {
        None
    } else if released[0].major == v.major && released[0].minor == v.minor && released[0].patch
        == v.patch {
        Some(released[0])
    } else {
        release_for(released.drop_first(), v)
    }
}

/// The published release an application makes a pair of: a Tamanu
/// application's last reported version, where Canopy holds a published
/// release with its numbers.
pub open spec fn resolve(app: Application, reported: Seq<(u128, SemVer)>, released: Seq<ReleaseVersion>) -> Option<ReleaseVersion> {
    if app.software@ == "tamanu"@ {
        match reported_for(reported, app.id) {
            Some(v) => match release_for(released, v) {
                Some(r) => if r.published {
                    Some(r)
                } else {
                    None
                },
                None => None,
            },
            None => None,
        }
    } else {
        None
    }
}

/// The names of the applications, in order, that make a pair of this release.
pub open spec fn labels_for(apps: Seq<Application>, reported: Seq<(u128, SemVer)>, released: Seq<ReleaseVersion>, id: u128) -> Seq<Seq<char>>
    decreases apps.len(),
{
    if apps.len() == 0 {
        seq![]
    } else {
        let before = labels_for(apps.drop_last(), reported, released, id);
        match resolve(apps.last(), reported, released) {
            Some(r) => if r.id == id {
                before.push(apps.last().label@)
            } else {
                before
            },
            None => before,
        }
    }
}

/// Whether some application makes a pair of this release.
pub open spec fn resolves_to(apps: Seq<Application>, reported: Seq<(u128, SemVer)>, released: Seq<ReleaseVersion>, id: u128) -> bool {
    exists|a: int| 0 <= a < apps.len() && ((#[trigger] resolve(apps[a], reported, released)) matches Some(r) && r.id == id)
}

/// Names come only from applications making a pair of the release.
proof fn lemma_labels_need_an_application(apps: Seq<Application>, reported: Seq<(u128, SemVer)>, released: Seq<ReleaseVersion>, id: u128)
    ensures
        !resolves_to(apps, reported, released, id) ==> labels_for(apps, reported, released, id) == Seq::<Seq<char>>::empty(),
    decreases apps.len(),
{
    if apps.len() > 0 {
        lemma_labels_need_an_application(apps.drop_last(), reported, released, id);
        if !resolves_to(apps, reported, released, id) {
            assert forall|a: int| 0 <= a < apps.drop_last().len() implies !((#[trigger] resolve(apps.drop_last()[a], reported, released)) matches Some(r) && r.id == id) by {
                assert(apps.drop_last()[a] == apps[a]);
            }
            assert(!(resolve(apps[apps.len() - 1], reported, released) matches Some(r) && r.id == id));
        }
    }
}

/// Whether release `a` comes no later than release `b` by its numbers.
pub open spec fn numbered_before(a: ReleaseVersion, b: ReleaseVersion) -> bool {
    ||| a.major < b.major
    ||| (a.major == b.major && a.minor < b.minor)
    ||| (a.major == b.major && a.minor == b.minor && a.patch <= b.patch)
}

/// The names' texts.
pub open spec fn texts_of(v: Seq<String>) -> Seq<Seq<char>> {
    v.map_values(|s: String| s@)
}

/// Whether texts run in order, none after one it sorts before.
pub open spec fn texts_sorted(t: Seq<Seq<char>>) -> bool {
    forall|i: int, j: int| 0 <= i < j < t.len() ==> !lex_lt(#[trigger] t[j], #[trigger] t[i])
}

/// The last report read for an application.
fn find_reported(reported: &Vec<(u128, SemVer)>, app: u128) -> (r: Option<SemVer>)
    ensures
        r == reported_for(reported@, app),
{
    let mut i: usize = reported.len();
    assert(reported@.take(i as int) =~= reported@);
    while i > 0
        invariant
            i <= reported@.len(),
            reported_for(reported@, app) == reported_for(reported@.take(i as int), app),
        decreases i,
    {
        proof {
            assert(reported@.take(i as int).drop_last() =~= reported@.take(i - 1));
        }
        if reported[i - 1].0 == app {
            return Some(reported[i - 1].1);
        }
        i = i - 1;
    }
    None
}

/// The first release held with these numbers.
fn find_release(released: &Vec<ReleaseVersion>, v: SemVer) -> (r: Option<ReleaseVersion>)
    ensures
        r == release_for(released@, v),
{
    let mut i: usize = 0;
    assert(released@.skip(0) =~= released@);
    while i < released.len()
        invariant
            i <= released@.len(),
            release_for(released@, v) == release_for(released@.skip(i as int), v),
        decreases released@.len() - i,
    {
        proof {
            assert(released@.skip(i as int).drop_first() =~= released@.skip(i + 1));
            assert(released@.skip(i as int)[0] == released@[i as int]);
        }
        let r = &released[i];
        if r.major == v.major && r.minor == v.minor && r.patch == v.patch {
            return Some(*r);
        }
        i = i + 1;
    }
    proof {
        assert(released@.skip(i as int).len() == 0);
    }
    None
}

/// The release an application makes a pair of.
fn resolve_app(app: &Application, reported: &Vec<(u128, SemVer)>, released: &Vec<ReleaseVersion>) -> (r: Option<ReleaseVersion>)
    ensures
        r == resolve(*app, reported@, released@),
{
    proof {
        reveal_strlit("tamanu");
    }
    if !str_eq(app.software.as_str(), "tamanu") {
        return None;
    }
    let shown = match find_reported(reported, app.id) {
        Some(v) => v,
        None => {
            return None;
        },
    };
    match find_release(released, shown) {
        Some(r) => if r.published {
            Some(r)
        } else {
            None
        },
        None => None,
    }
}

/// Where a pair stands among these.
fn pair_slot(pairs: &Vec<(ReleaseVersion, Vec<String>)>, id: u128) -> (r: Option<usize>)
    ensures
        r matches Some(i) ==> i < pairs@.len() && pairs@[i as int].0.id == id,
        r is None ==> forall|i: int| 0 <= i < pairs@.len() ==> (#[trigger] pairs@[i]).0.id != id,
{
    let mut i: usize = 0;
    while i < pairs.len()
        invariant
            i <= pairs@.len(),
            forall|m: int| 0 <= m < i ==> (#[trigger] pairs@[m]).0.id != id,
        decreases pairs@.len() - i,
    {
        if pairs[i].0.id == id {
            return Some(i);
        }
        i = i + 1;
    }
    None
}

/// Where a release goes among pairs ordered by number: after every pair
/// numbered no later.
fn sorted_slot(pairs: &Vec<(ReleaseVersion, Vec<String>)>, v: &ReleaseVersion) -> (p: usize)
    requires
        forall|i: int, j: int| 0 <= i < j < pairs@.len() ==> numbered_before((#[trigger] pairs@[i]).0, (#[trigger] pairs@[j]).0),
    ensures
        p <= pairs@.len(),
        forall|i: int| 0 <= i < p ==> numbered_before((#[trigger] pairs@[i]).0, *v),
        forall|i: int| p <= i < pairs@.len() ==> !numbered_before((#[trigger] pairs@[i]).0, *v),
{
    let mut p: usize = 0;
    while p < pairs.len()
        invariant
            p <= pairs@.len(),
            forall|i: int, j: int| 0 <= i < j < pairs@.len() ==> numbered_before((#[trigger] pairs@[i]).0, (#[trigger] pairs@[j]).0),
            forall|i: int| 0 <= i < p ==> numbered_before((#[trigger] pairs@[i]).0, *v),
        decreases pairs@.len() - p,
    {
        let w = &pairs[p].0;
        let le = w.major < v.major || (w.major == v.major && w.minor < v.minor) || (w.major == v.major
            && w.minor == v.minor && w.patch <= v.patch);
        if !le {
            assert forall|i: int| p <= i < pairs@.len() implies !numbered_before((#[trigger] pairs@[i]).0, *v) by {
                if i > p {
                    assert(numbered_before(pairs@[p as int].0, pairs@[i].0));
                }
            }
            return p;
        }
        p = p + 1;
    }
    p
}

/// Sort names, each after any it does not sort before.
fn sort_names(names: &mut Vec<String>)
    ensures
        texts_of(final(names)@).to_multiset() == texts_of(old(names)@).to_multiset(),
        texts_sorted(texts_of(final(names)@)),
{
    let mut rest: Vec<String> = Vec::new();
    std::mem::swap(&mut rest, names);
    let ghost orig = texts_of(rest@);
    let ghost raw = rest@;
    assert(raw.len() == rest.len());
    let mut k: usize = 0;
    let mut out: Vec<String> = Vec::new();
    assert(texts_of(out@) =~= orig.take(0));
    while rest.len() > 0
        invariant
            k <= raw.len(),
            raw.len() <= usize::MAX,
            orig == texts_of(raw),
            rest@ == raw.skip(k as int),
            rest@.len() == raw.len() - k,
            texts_of(out@).to_multiset() == orig.take(k as int).to_multiset(),
            texts_sorted(texts_of(out@)),
        decreases rest@.len(),
    {
        let a = rest.remove(0);
        proof {
            assert(a == raw[k as int]);
            assert(rest@ =~= raw.skip(k + 1));
            assert(orig.take(k + 1) =~= orig.take(k as int).push(a@));
        }
        let mut j: usize = out.len();
        loop
            invariant
                j <= out@.len(),
                forall|m: int| j <= m < out@.len() ==> lex_lt(a@, (#[trigger] out@[m])@),
            ensures
                j <= out@.len(),
                forall|m: int| j <= m < out@.len() ==> lex_lt(a@, (#[trigger] out@[m])@),
                j == 0 || !lex_lt(a@, out@[j - 1]@),
            decreases j,
        {
            if j == 0 {
                break;
            }
            if !lex_less(a.as_str(), out[j - 1].as_str()) {
                break;
            }
            j = j - 1;
        }
        let ghost was = out@;
        let ghost av = a@;
        out.insert(j, a);
        proof {
            assert(texts_of(out@) =~= texts_of(was).insert(j as int, av));
            crate::relay::order::lemma_lex_total(av, av);
            assert forall|x: int, y: int| 0 <= x < y < texts_of(out@).len() implies !lex_lt(#[trigger] texts_of(out@)[y], #[trigger] texts_of(out@)[x]) by {
                let t = texts_of(out@);
                let w = texts_of(was);
                if x < j && y < j {
                    assert(t[x] == w[x] && t[y] == w[y]);
                } else if x < j && y == j {
                    assert(t[x] == w[x]);
                    if j > 0 {
                        assert(!lex_lt(av, w[j - 1]));
                        if x < j - 1 {
                            assert(!lex_lt(w[j - 1], w[x]));
                            crate::relay::order::lemma_lex_total(w[x], w[j - 1]);
                            crate::relay::order::lemma_lex_total(w[j - 1], av);
                            if lex_lt(av, w[x]) {
                                crate::relay::order::lemma_lex_transitive(av, w[x], w[j - 1]);
                                if !lex_lt(w[x], w[j - 1]) {
                                    assert(w[x] == w[j - 1]);
                                }
                            }
                        }
                    }
                } else if x < j && y > j {
                    assert(t[x] == w[x] && t[y] == w[y - 1]);
                } else if x == j {
                    assert(t[y] == w[y - 1]);
                    assert(lex_lt(av, w[y - 1]));
                    crate::relay::order::lemma_lex_irreflexive(av);
                    if lex_lt(w[y - 1], av) {
                        crate::relay::order::lemma_lex_transitive(av, w[y - 1], av);
                    }
                } else {
                    assert(t[x] == w[x - 1] && t[y] == w[y - 1]);
                }
            }
        }
        k = k + 1;
    }
    proof {
        assert(orig.take(k as int) =~= orig);
    }
    *names = out;
}

/// Whether pairs run in release order.
pub open spec fn pairs_ordered(p: Seq<(ReleaseVersion, Vec<String>)>) -> bool {
    forall|i: int, j: int| 0 <= i < j < p.len() ==> numbered_before((#[trigger] p[i]).0, (#[trigger] p[j]).0)
}

/// Whether no release has two pairs.
pub open spec fn pairs_distinct(p: Seq<(ReleaseVersion, Vec<String>)>) -> bool {
    forall|i: int, j: int| 0 <= i < j < p.len() ==> (#[trigger] p[i]).0.id != (#[trigger] p[j]).0.id
}

/// Whether some pair is of this release.
pub open spec fn has_pair(p: Seq<(ReleaseVersion, Vec<String>)>, id: u128) -> bool {
    exists|i: int| 0 <= i < p.len() && (#[trigger] p[i]).0.id == id
}

/// The names of applications making a pair of the last application's release
/// are those before it, and its own.
proof fn lemma_labels_step(apps: Seq<Application>, reported: Seq<(u128, SemVer)>, released: Seq<ReleaseVersion>, a: int, id: u128)
    requires
        0 <= a < apps.len(),
    ensures
        labels_for(apps.take(a + 1), reported, released, id) == (match resolve(apps[a], reported, released) {
            Some(r) => if r.id == id {
                labels_for(apps.take(a), reported, released, id).push(apps[a].label@)
            } else {
                labels_for(apps.take(a), reported, released, id)
            },
            None => labels_for(apps.take(a), reported, released, id),
        }),
        resolves_to(apps.take(a + 1), reported, released, id) == (resolves_to(apps.take(a), reported, released, id) || (resolve(apps[a], reported, released) matches Some(r) && r.id == id)),
{
    assert(apps.take(a + 1).drop_last() =~= apps.take(a));
    assert(apps.take(a + 1).last() == apps[a]);
    if resolves_to(apps.take(a + 1), reported, released, id) {
        let x = choose|x: int| 0 <= x < apps.take(a + 1).len() && ((#[trigger] resolve(apps.take(a + 1)[x], reported, released)) matches Some(r) && r.id == id);
        if x < a {
            assert(apps.take(a)[x] == apps.take(a + 1)[x]);
        }
    }
    if resolves_to(apps.take(a), reported, released, id) {
        let x = choose|x: int| 0 <= x < apps.take(a).len() && ((#[trigger] resolve(apps.take(a)[x], reported, released)) matches Some(r) && r.id == id);
        assert(apps.take(a + 1)[x] == apps.take(a)[x]);
    }
    if resolve(apps[a], reported, released) matches Some(r) && r.id == id {
        assert(apps.take(a + 1)[a] == apps[a]);
    }
}

/// A group's pairs, and which of its Tamanu applications report each one:
/// every published release its Tamanu applications last reported, plus the
/// release its open plan moves it to, each once, in release order, with the
/// applications' names sorted. A reported version Canopy holds no published
/// release of makes no pair.
pub fn versions_and_applications(
    applications: &Vec<Application>,
    reported: &Vec<(u128, SemVer)>,
    released: &Vec<ReleaseVersion>,
    planned: Option<ReleaseVersion>,
) -> (r: Vec<(ReleaseVersion, Vec<String>)>)
    ensures
        pairs_ordered(r@),
        pairs_distinct(r@),
        forall|id: u128|
            #[trigger] has_pair(r@, id) <==> (resolves_to(applications@, reported@, released@, id) || (
            planned matches Some(t) && t.id == id)),
        forall|i: int|
            0 <= i < r@.len() ==> (exists|a: int|
                0 <= a < applications@.len() && #[trigger] resolve(applications@[a], reported@, released@)
                    == Some((#[trigger] r@[i]).0)) || planned == Some(r@[i].0),
        forall|i: int|
            0 <= i < r@.len() ==> texts_sorted(texts_of((#[trigger] r@[i]).1@)) && texts_of(r@[i].1@).to_multiset()
                == labels_for(applications@, reported@, released@, r@[i].0.id).to_multiset(),
{
    let ghost apps = applications@;
    let ghost rep = reported@;
    let ghost rel = released@;
    let mut pairs: Vec<(ReleaseVersion, Vec<String>)> = Vec::new();
    let mut a: usize = 0;
    while a < applications.len()
        invariant
            apps == applications@,
            rep == reported@,
            rel == released@,
            a <= apps.len(),
            pairs_ordered(pairs@),
            pairs_distinct(pairs@),
            forall|id: u128| #[trigger] has_pair(pairs@, id) <==> resolves_to(apps.take(a as int), rep, rel, id),
            forall|i: int|
                0 <= i < pairs@.len() ==> exists|x: int|
                    0 <= x < a && #[trigger] resolve(apps[x], rep, rel) == Some((#[trigger] pairs@[i]).0),
            forall|i: int|
                0 <= i < pairs@.len() ==> texts_of((#[trigger] pairs@[i]).1@) == labels_for(apps.take(a as int), rep, rel, pairs@[i].0.id),
        decreases apps.len() - a,
    {
        let app = &applications[a];
        let resolved = resolve_app(app, reported, released);
        let ghost was = pairs@;
        match resolved {
            None => {
                proof {
                    assert forall|id: u128| #[trigger] has_pair(pairs@, id) <==> resolves_to(apps.take(a + 1), rep, rel, id) by {
                        lemma_labels_step(apps, rep, rel, a as int, id);
                    }
                    assert forall|i: int| 0 <= i < pairs@.len() implies texts_of((#[trigger] pairs@[i]).1@) == labels_for(apps.take(a + 1), rep, rel, pairs@[i].0.id) by {
                        lemma_labels_step(apps, rep, rel, a as int, pairs@[i].0.id);
                    }
                }
            },
            Some(version) => {
                let label = app.label.clone();
                match pair_slot(&pairs, version.id) {
                    Some(i) => {
                        let mut e = pairs.remove(i);
                        let ghost old_names = e.1@;
                        e.1.push(label);
                        pairs.insert(i, e);
                        proof {
                            assert(pairs@ =~= was.update(i as int, pairs@[i as int]));
                            assert(pairs@[i as int].0 == was[i as int].0);
                            assert(texts_of(pairs@[i as int].1@) =~= texts_of(old_names).push(app.label@));
                            assert forall|id: u128| #[trigger] has_pair(pairs@, id) <==> resolves_to(apps.take(a + 1), rep, rel, id) by {
                                lemma_labels_step(apps, rep, rel, a as int, id);
                                if has_pair(was, id) {
                                    let m = choose|m: int| 0 <= m < was.len() && (#[trigger] was[m]).0.id == id;
                                    assert(pairs@[m].0.id == id);
                                }
                                if has_pair(pairs@, id) {
                                    let m = choose|m: int| 0 <= m < pairs@.len() && (#[trigger] pairs@[m]).0.id == id;
                                    assert(was[m].0.id == id);
                                }
                                if id == version.id {
                                    assert(was[i as int].0.id == id);
                                }
                            }
                            assert forall|m: int| 0 <= m < pairs@.len() implies exists|x: int|
                                0 <= x < a + 1 && #[trigger] resolve(apps[x], rep, rel) == Some((#[trigger] pairs@[m]).0) by {
                                assert(pairs@[m].0 == was[m].0);
                                let x = choose|x: int| 0 <= x < a && #[trigger] resolve(apps[x], rep, rel) == Some(was[m].0);
                            }
                            assert forall|m: int| 0 <= m < pairs@.len() implies texts_of((#[trigger] pairs@[m]).1@) == labels_for(apps.take(a + 1), rep, rel, pairs@[m].0.id) by {
                                lemma_labels_step(apps, rep, rel, a as int, pairs@[m].0.id);
                                if m != i {
                                    assert(pairs@[m] == was[m]);
                                    assert(was[m].0.id != version.id) by {
                                        if m < i {
                                            assert(was[m].0.id != was[i as int].0.id);
                                        } else {
                                            assert(was[i as int].0.id != was[m].0.id);
                                        }
                                    }
                                }
                            }
                        }
                    },
                    None => {
                        let p = sorted_slot(&pairs, &version);
                        let mut names: Vec<String> = Vec::new();
                        names.push(label);
                        pairs.insert(p, (version, names));
                        proof {
                            lemma_labels_need_an_application(apps.take(a as int), rep, rel, version.id);
                            assert(!has_pair(was, version.id));
                            assert(pairs@ =~= was.insert(p as int, (version, names)));
                            assert(texts_of(pairs@[p as int].1@) =~= seq![app.label@]);
                            assert forall|x: int, y: int| 0 <= x < y < pairs@.len() implies numbered_before((#[trigger] pairs@[x]).0, (#[trigger] pairs@[y]).0) && pairs@[x].0.id != pairs@[y].0.id by {
                                if x < p && y < p {
                                    assert(pairs@[x] == was[x] && pairs@[y] == was[y]);
                                } else if x < p && y == p {
                                    assert(pairs@[x] == was[x]);
                                    assert(was[x].0.id != version.id);
                                } else if x < p {
                                    assert(pairs@[x] == was[x] && pairs@[y] == was[y - 1]);
                                } else if x == p {
                                    assert(pairs@[y] == was[y - 1]);
                                    assert(!numbered_before(was[y - 1].0, version));
                                    assert(was[y - 1].0.id != version.id);
                                } else {
                                    assert(pairs@[x] == was[x - 1] && pairs@[y] == was[y - 1]);
                                }
                            }
                            assert forall|id: u128| #[trigger] has_pair(pairs@, id) <==> resolves_to(apps.take(a + 1), rep, rel, id) by {
                                lemma_labels_step(apps, rep, rel, a as int, id);
                                if has_pair(was, id) {
                                    let m = choose|m: int| 0 <= m < was.len() && (#[trigger] was[m]).0.id == id;
                                    if m < p {
                                        assert(pairs@[m].0.id == id);
                                    } else {
                                        assert(pairs@[m + 1].0.id == id);
                                    }
                                }
                                if has_pair(pairs@, id) {
                                    let m = choose|m: int| 0 <= m < pairs@.len() && (#[trigger] pairs@[m]).0.id == id;
                                    if m < p {
                                        assert(was[m].0.id == id);
                                    } else if m > p {
                                        assert(was[m - 1].0.id == id);
                                    }
                                }
                                if id == version.id {
                                    assert(pairs@[p as int].0.id == id);
                                }
                            }
                            assert forall|m: int| 0 <= m < pairs@.len() implies exists|x: int|
                                0 <= x < a + 1 && #[trigger] resolve(apps[x], rep, rel) == Some((#[trigger] pairs@[m]).0) by {
                                if m < p {
                                    assert(pairs@[m] == was[m]);
                                    let x = choose|x: int| 0 <= x < a && #[trigger] resolve(apps[x], rep, rel) == Some(was[m].0);
                                } else if m > p {
                                    assert(pairs@[m] == was[m - 1]);
                                    let x = choose|x: int| 0 <= x < a && #[trigger] resolve(apps[x], rep, rel) == Some(was[m - 1].0);
                                } else {
                                    assert(resolve(apps[a as int], rep, rel) == Some(pairs@[m].0));
                                }
                            }
                            assert forall|m: int| 0 <= m < pairs@.len() implies texts_of((#[trigger] pairs@[m]).1@) == labels_for(apps.take(a + 1), rep, rel, pairs@[m].0.id) by {
                                lemma_labels_step(apps, rep, rel, a as int, pairs@[m].0.id);
                                if m < p {
                                    assert(pairs@[m] == was[m]);
                                    assert(was[m].0.id != version.id);
                                } else if m > p {
                                    assert(pairs@[m] == was[m - 1]);
                                    assert(was[m - 1].0.id != version.id);
                                } else {
                                    assert(labels_for(apps.take(a as int), rep, rel, version.id) =~= Seq::<Seq<char>>::empty());
                                }
                            }
                        }
                    },
                }
            },
        }
        a = a + 1;
    }
    proof {
        assert(apps.take(a as int) =~= apps);
    }
    let ghost built = pairs@;
    if let Some(target) = planned {
        if pair_slot(&pairs, target.id).is_none() {
            let p = sorted_slot(&pairs, &target);
            pairs.insert(p, (target, Vec::new()));
            proof {
                assert(!has_pair(built, target.id));
                lemma_labels_need_an_application(apps, rep, rel, target.id);
                assert(pairs@ =~= built.insert(p as int, pairs@[p as int]));
                assert(pairs@[p as int].0 == target);
                assert(pairs@[p as int].1@.len() == 0);
                assert forall|x: int, y: int| 0 <= x < y < pairs@.len() implies numbered_before((#[trigger] pairs@[x]).0, (#[trigger] pairs@[y]).0) && pairs@[x].0.id != pairs@[y].0.id by {
                    if x < p && y < p {
                        assert(pairs@[x] == built[x] && pairs@[y] == built[y]);
                    } else if x < p && y == p {
                        assert(pairs@[x] == built[x]);
                        assert(built[x].0.id != target.id);
                    } else if x < p {
                        assert(pairs@[x] == built[x] && pairs@[y] == built[y - 1]);
                    } else if x == p {
                        assert(pairs@[y] == built[y - 1]);
                        assert(built[y - 1].0.id != target.id);
                    } else {
                        assert(pairs@[x] == built[x - 1] && pairs@[y] == built[y - 1]);
                    }
                }
                assert forall|id: u128| #[trigger] has_pair(pairs@, id) <==> (has_pair(built, id) || id == target.id) by {
                    if has_pair(built, id) {
                        let m = choose|m: int| 0 <= m < built.len() && (#[trigger] built[m]).0.id == id;
                        if m < p {
                            assert(pairs@[m].0.id == id);
                        } else {
                            assert(pairs@[m + 1].0.id == id);
                        }
                    }
                    if has_pair(pairs@, id) {
                        let m = choose|m: int| 0 <= m < pairs@.len() && (#[trigger] pairs@[m]).0.id == id;
                        if m < p {
                            assert(built[m].0.id == id);
                        } else if m > p {
                            assert(built[m - 1].0.id == id);
                        }
                    }
                    if id == target.id {
                        assert(pairs@[p as int].0.id == id);
                    }
                }
                assert forall|m: int| 0 <= m < pairs@.len() implies (exists|x: int|
                    0 <= x < apps.len() && #[trigger] resolve(apps[x], rep, rel) == Some((#[trigger] pairs@[m]).0)) || planned == Some(pairs@[m].0) by {
                    if m < p {
                        assert(pairs@[m] == built[m]);
                    } else if m > p {
                        assert(pairs@[m] == built[m - 1]);
                    }
                }
                assert forall|m: int| 0 <= m < pairs@.len() implies texts_of((#[trigger] pairs@[m]).1@) == labels_for(apps, rep, rel, pairs@[m].0.id) by {
                    if m < p {
                        assert(pairs@[m] == built[m]);
                    } else if m > p {
                        assert(pairs@[m] == built[m - 1]);
                    } else {
                        assert(texts_of(pairs@[m].1@) =~= Seq::<Seq<char>>::empty());
                    }
                }
            }
        } else {
            proof {
                assert(has_pair(built, target.id));
            }
        }
    }
    let ghost listed = pairs@;
    let mut i: usize = 0;
    while i < pairs.len()
        invariant
            i <= pairs@.len(),
            pairs@.len() == listed.len(),
            forall|m: int| 0 <= m < pairs@.len() ==> (#[trigger] pairs@[m]).0 == listed[m].0,
            forall|m: int| 0 <= m < pairs@.len() ==> texts_of((#[trigger] pairs@[m]).1@).to_multiset() == texts_of(listed[m].1@).to_multiset(),
            forall|m: int| 0 <= m < i ==> texts_sorted(texts_of((#[trigger] pairs@[m]).1@)),
        decreases pairs@.len() - i,
    {
        let ghost before = pairs@;
        let mut e = pairs.remove(i);
        sort_names(&mut e.1);
        pairs.insert(i, e);
        proof {
            assert(pairs@ =~= before.update(i as int, pairs@[i as int]));
        }
        i = i + 1;
    }
    proof {
        assert forall|id: u128| #[trigger] has_pair(pairs@, id) == has_pair(listed, id) by {
            if has_pair(pairs@, id) {
                let m = choose|m: int| 0 <= m < pairs@.len() && (#[trigger] pairs@[m]).0.id == id;
                assert(listed[m].0.id == id);
            }
            if has_pair(listed, id) {
                let m = choose|m: int| 0 <= m < listed.len() && (#[trigger] listed[m]).0.id == id;
                assert(pairs@[m].0.id == id);
            }
        }
        assert forall|x: int, y: int| 0 <= x < y < pairs@.len() implies numbered_before((#[trigger] pairs@[x]).0, (#[trigger] pairs@[y]).0) by {
            assert(listed[x].0 == pairs@[x].0 && listed[y].0 == pairs@[y].0);
        }
        assert forall|x: int, y: int| 0 <= x < y < pairs@.len() implies (#[trigger] pairs@[x]).0.id != (#[trigger] pairs@[y]).0.id by {
            assert(listed[x].0 == pairs@[x].0 && listed[y].0 == pairs@[y].0);
        }
    }
    pairs
}

/// One instance a check files: what it is about, what was observed, and the
/// detail that goes with it.
#[derive(Debug)]
pub struct CheckInstance {
    pub label: String,
    pub observed: CheckResult,
    pub detail: Option<Json>,
}

/// What a failed or awaiting pair is filed as failing for: the build's error,
/// or a sentence naming the version.
pub open spec fn why_of(p: Pair) -> Seq<char> {
    match p.error {
        Some(e) => e@,
        None => "no schema could be built for "@ + p.version@,
    }
}

/// The detail a pair is filed with: its version, and why where it was not
/// built.
pub open spec fn detail_of(p: Pair) -> JsonV {
    if p.state == PairState::Built {
        JsonV::Object(seq![("version"@, JsonV::Str(p.version@))])
    } else {
        JsonV::Object(seq![("version"@, JsonV::Str(p.version@)), ("why"@, JsonV::Str(why_of(p)))])
    }
}

/// What an instance holds: its label, its result and its detail.
pub open spec fn instance_of(i: CheckInstance) -> (Seq<char>, CheckResult, Option<JsonV>) {
    (i.label@, i.observed, match i.detail {
        Some(d) => Some(d@),
        None => None,
    })
}

/// What the instances hold, in order.
pub open spec fn instance_views(s: Seq<CheckInstance>) -> Seq<(Seq<char>, CheckResult, Option<JsonV>)> {
    s.map_values(|i: CheckInstance| instance_of(i))
}

/// The instances a group's check is filed with: one per pair a build has
/// been recorded for, labelled by its version, passed where a schema was
/// built and a warning where none was.
pub open spec fn filed(pairs: Seq<Pair>) -> Seq<(Seq<char>, CheckResult, Option<JsonV>)>
    decreases pairs.len(),
{
    if pairs.len() == 0 {
        seq![]
    } else {
        let before = filed(pairs.drop_last());
        let p = pairs.last();
        if p.state == PairState::Awaiting {
            before
        } else {
            before.push((p.version@, if p.state == PairState::Built {
                CheckResult::Passed
            } else {
                CheckResult::Warning
            }, Some(detail_of(p))))
        }
    }
}

/// The instances a group's reporting-schema check is filed with.
pub fn instances_of(pairs: &Vec<Pair>) -> (r: Vec<CheckInstance>)
    ensures
        instance_views(r@) == filed(pairs@),
{
    let mut out: Vec<CheckInstance> = Vec::new();
    let mut k: usize = 0;
    while k < pairs.len()
        invariant
            k <= pairs@.len(),
            instance_views(out@) == filed(pairs@.take(k as int)),
        decreases pairs@.len() - k,
    {
        proof {
            assert(pairs@.take(k + 1).drop_last() =~= pairs@.take(k as int));
            assert(pairs@.take(k + 1).last() == pairs@[k as int]);
        }
        let pair = &pairs[k];
        if pair.state != PairState::Awaiting {
            let mut members: Vec<(String, Json)> = Vec::new();
            members.push(entry("version", text(pair.version.as_str())));
            let built = pair.state == PairState::Built;
            if !built {
                let why = match &pair.error {
                    Some(e) => e.clone(),
                    None => {
                        let mut w = String::from_str("no schema could be built for ");
                        push_str(&mut w, pair.version.as_str());
                        w
                    },
                };
                members.push(entry("why", text(why.as_str())));
            }
            let detail = object(members);
            let ghost was = out@;
            out.push(CheckInstance {
                label: pair.version.clone(),
                observed: if built {
                    CheckResult::Passed
                } else {
                    CheckResult::Warning
                },
                detail: Some(detail),
            });
            proof {
                reveal_strlit("no schema could be built for ");
                assert(detail@ == detail_of(*pair)) by {
                    assert(crate::json::entries_view(members@) =~= match pair.state {
                        PairState::Built => seq![("version"@, JsonV::Str(pair.version@))],
                        _ => seq![("version"@, JsonV::Str(pair.version@)), ("why"@, JsonV::Str(why_of(*pair)))],
                    });
                }
                assert(instance_views(out@) =~= instance_views(was).push(instance_of(out@[out@.len() - 1])));
            }
        }
        k = k + 1;
    }
    proof {
        assert(pairs@.take(k as int) =~= pairs@);
    }
    out
}

/// Why a degraded instance was filed: the detail's `why`, or that the build
/// failed.
pub open spec fn why_filed(detail: Option<JsonV>) -> Seq<char> {
    match jstr(jget(detail, "why"@)) {
        Some(w) => w,
        None => "the build failed"@,
    }
}

/// The labels of instances.
pub open spec fn labels_of(s: Seq<CheckInstance>) -> Seq<Seq<char>> {
    s.map_values(|i: CheckInstance| i.label@)
}

/// What a group's reporting-schema check says: that every version it runs
/// has a schema, which one has none and why, or how many of how many have
/// none and which.
pub open spec fn summary_spec(name: Seq<char>, total: nat, degraded: Seq<CheckInstance>) -> Seq<char> {
    if degraded.len() == 0 {
        "Reporting schemas are built for every version "@ + name + " runs"@
    } else if degraded.len() == 1 {
        "No reporting schema for "@ + name + " on "@ + degraded[0].label@ + ": "@ + why_filed(
            instance_of(degraded[0]).2,
        )
    } else {
        "No reporting schema for "@ + decimal_spec(degraded.len()) + " of "@ + decimal_spec(total)
            + " versions "@ + name + " runs: "@ + joined(labels_of(degraded), ", "@)
    }
}

/// What a group's reporting-schema check says of its degraded instances.
pub fn degraded_summary(name: &str, total: u64, degraded: &Vec<CheckInstance>) -> (s: String)
    ensures
        s@ == summary_spec(name@, total as nat, degraded@),
{
    proof {
        reveal_strlit("Reporting schemas are built for every version ");
        reveal_strlit(" runs");
        reveal_strlit("No reporting schema for ");
        reveal_strlit(" on ");
        reveal_strlit(": ");
        reveal_strlit("the build failed");
        reveal_strlit(" of ");
        reveal_strlit(" versions ");
        reveal_strlit(" runs: ");
        reveal_strlit(", ");
        reveal_strlit("why");
    }
    if degraded.len() == 0 {
        let mut s = String::from_str("Reporting schemas are built for every version ");
        push_str(&mut s, name);
        push_str(&mut s, " runs");
        return s;
    }
    if degraded.len() == 1 {
        let one = &degraded[0];
        let mut s = String::from_str("No reporting schema for ");
        push_str(&mut s, name);
        push_str(&mut s, " on ");
        push_str(&mut s, one.label.as_str());
        push_str(&mut s, ": ");
        let why: &str = match &one.detail {
            Some(d) => match d.get("why") {
                Some(w) => match w.as_str() {
                    Some(t) => t,
                    None => "the build failed",
                },
                None => "the build failed",
            },
            None => "the build failed",
        };
        push_str(&mut s, why);
        return s;
    }
    let count = decimal(degraded.len() as u64);
    let whole = decimal(total);
    let mut labels: Vec<String> = Vec::new();
    let mut i: usize = 0;
    while i < degraded.len()
        invariant
            i <= degraded@.len(),
            labels@.len() == i,
            forall|m: int| 0 <= m < i ==> (#[trigger] labels@[m])@ == degraded@[m].label@,
        decreases degraded@.len() - i,
    {
        labels.push(degraded[i].label.clone());
        i = i + 1;
    }
    let listed = join(labels.as_slice(), ", ");
    proof {
        assert(labels@.map_values(|l: String| l@) =~= labels_of(degraded@));
    }
    let mut s = String::from_str("No reporting schema for ");
    push_str(&mut s, count.as_str());
    push_str(&mut s, " of ");
    push_str(&mut s, whole.as_str());
    push_str(&mut s, " versions ");
    push_str(&mut s, name);
    push_str(&mut s, " runs: ");
    push_str(&mut s, listed.as_str());
    s
}

/// What the check says once no reporting schema is owed for the group.
pub fn gone_summary(name: &str) -> (s: String)
    ensures
        s@ == "No reporting schema is owed for "@ + name@,
{
    let mut s = String::from_str("No reporting schema is owed for ");
    push_str(&mut s, name);
    s
}

/// The instances a group's reporting-schema check is filed with on a sweep:
/// those of its pairs where an enabled declaration builds its schemas, and
/// none where none does, which is what says a finding filed while it did is
/// gone.
pub fn sweep_instances(builds_schemas: bool, pairs: &Vec<Pair>) -> (r: Vec<CheckInstance>)
    ensures
        builds_schemas ==> instance_views(r@) == filed(pairs@),
        !builds_schemas ==> r@.len() == 0,
{
    if builds_schemas {
        instances_of(pairs)
    } else {
        Vec::new()
    }
}

} // verus!
