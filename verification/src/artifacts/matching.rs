//! What a version offers: which artifacts match it, in what order, and which
//! one of each type and platform is served.

use std::cmp::Ordering;
use vstd::prelude::*;
use crate::text::{chars_of, str_eq};
use super::{Artifact, Scope};

verus! {

broadcast use vstd::seq_lib::group_to_multiset_ensures;

/// A release version, by its three numbers.
#[derive(Debug, Clone, Copy, PartialEq, Eq, Structural)]
pub struct SemVer {
    pub major: u64,
    pub minor: u64,
    pub patch: u64,
}

/// Whether node-semver reads this text as a range.
pub uninterp spec fn range_parses(pattern: Seq<char>) -> bool;

/// Whether the range node-semver reads from this text admits the version.
pub uninterp spec fn range_satisfied(pattern: Seq<char>, major: u64, minor: u64, patch: u64) -> bool;

/// Whether the range read from the first text allows all of the range read
/// from the second.
pub uninterp spec fn range_allows_all(a: Seq<char>, b: Seq<char>) -> bool;

#[verifier::external_type_specification]
#[verifier::external_body]
pub struct ExRange(node_semver::Range);

/// A range node-semver read from a pattern, with the pattern it was read from.
pub struct ParsedRange {
    range: node_semver::Range,
    pattern: Ghost<Seq<char>>,
}

impl ParsedRange {
    /// The pattern the range was read from.
    pub closed spec fn pattern(&self) -> Seq<char> {
        self.pattern@
    }
}

/// `node_semver::Range::parse`: the range the pattern spells, or `None` where
/// it spells none.
#[verifier::external_body]
fn parse_range(pattern: &str) -> (r: Option<ParsedRange>)
    ensures
        r.is_some() == range_parses(pattern@),
        r.is_some() ==> r.unwrap().pattern() == pattern@,
{
    match node_semver::Range::parse(pattern) {
        Ok(range) => Some(ParsedRange { range, pattern: Ghost(pattern@) }),
        Err(_) => None,
    }
}

/// `node_semver::Range::satisfies`: whether the range admits the version with
/// these numbers and no pre-release or build part.
#[verifier::external_body]
fn range_satisfies(range: &ParsedRange, version: SemVer) -> (r: bool)
    ensures
        r == range_satisfied(range.pattern(), version.major, version.minor, version.patch),
{
    range.range.satisfies(&node_semver::Version::new(version.major, version.minor, version.patch))
}

/// `node_semver::Range::allows_all`: whether the first range allows all of
/// the second.
#[verifier::external_body]
fn range_allows(a: &ParsedRange, b: &ParsedRange) -> (r: bool)
    ensures
        r == range_allows_all(a.pattern(), b.pattern()),
{
    a.range.allows_all(&b.range)
}

/// Whether a pattern reads as a range.
pub fn range_valid(pattern: &str) -> (r: bool)
    ensures
        r == range_parses(pattern@),
{
    parse_range(pattern).is_some()
}

/// Whether the range read from the pattern admits the version: `None` where
/// the pattern is no range.
fn satisfies(pattern: &str, version: SemVer) -> (r: Option<bool>)
    ensures
        r.is_some() == range_parses(pattern@),
        r.is_some() ==> r.unwrap() == range_satisfied(
            pattern@,
            version.major,
            version.minor,
            version.patch,
        ),
{
    match parse_range(pattern) {
        Some(range) => Some(range_satisfies(&range, version)),
        None => None,
    }
}

/// Whether the range read from the first pattern allows all of the range read
/// from the second: `None` where either is no range.
fn allows_all(a: &str, b: &str) -> (r: Option<bool>)
    ensures
        r.is_some() == (range_parses(a@) && range_parses(b@)),
        r.is_some() ==> r.unwrap() == range_allows_all(a@, b@),
{
    let ra = parse_range(a);
    let rb = parse_range(b);
    match (ra, rb) {
        (Some(ra), Some(rb)) => Some(range_allows(&ra, &rb)),
        _ => None,
    }
}

/// The numbers of the exact version a text spells, if it spells one.
pub uninterp spec fn parsed_version(text: Seq<char>) -> Option<(u64, u64, u64)>;

/// `node_semver::Version::parse`: the major, minor and patch numbers of the
/// version the text spells, or `None` where it spells none.
#[verifier::external_body]
fn parse_version_numbers(text: &str) -> (r: Option<(u64, u64, u64)>)
    ensures
        r == parsed_version(text@),
{
    match node_semver::Version::parse(text) {
        Ok(v) => Some((v.major, v.minor, v.patch)),
        Err(_) => None,
    }
}

/// The exact version a text spells, if it spells one.
pub fn parse_version(text: &str) -> (r: Option<SemVer>)
    ensures
        r is None <==> parsed_version(text@) is None,
        r.is_some() ==> parsed_version(text@) == Some((r.unwrap().major, r.unwrap().minor, r.unwrap().patch)),
{
    match parse_version_numbers(text) {
        Some((major, minor, patch)) => Some(SemVer { major, minor, patch }),
        None => None,
    }
}

/// Whether an artifact applies to this version: it belongs to the version
/// itself, or its range admits it. A pattern that is no range matches nothing.
pub open spec fn covers(a: Artifact, target: u128, v: SemVer) -> bool {
    ||| a.version_id == Some(target)
    ||| (a.version_range_pattern matches Some(p) && range_parses(p@) && range_satisfied(
        p@,
        v.major,
        v.minor,
        v.patch,
    ))
}

/// Whether the pattern reads as a range that admits the version.
pub fn range_is_satisfied(pattern: &str, version: SemVer) -> (r: bool)
    ensures
        r == (range_parses(pattern@) && range_satisfied(
            pattern@,
            version.major,
            version.minor,
            version.patch,
        )),
{
    match satisfies(pattern, version) {
        Some(ok) => ok,
        None => false,
    }
}

/// Whether an artifact applies to this version.
pub fn applies(a: &Artifact, target: u128, version: SemVer) -> (r: bool)
    ensures
        r == covers(*a, target, version),
{
    if a.version_id == Some(target) {
        return true;
    }
    match &a.version_range_pattern {
        Some(p) => match satisfies(p.as_str(), version) {
            Some(ok) => ok,
            None => false,
        },
        None => false,
    }
}

/// The artifacts, in order, that the scope sees and that apply to the version.
pub open spec fn covering(s: Seq<Artifact>, target: u128, v: SemVer, scope: Scope) -> Seq<Artifact>
    decreases s.len(),
{
    if s.len() == 0 {
        seq![]
    } else {
        let rest = covering(s.drop_last(), target, v, scope);
        if scope.sees_spec(s.last().group_id) && covers(s.last(), target, v) {
            rest.push(s.last())
        } else {
            rest
        }
    }
}

/// How specific an artifact is by where it belongs: one of the caller's group
/// before one of no group, and one pinned to the version before a range.
pub open spec fn tier(a: Artifact) -> int {
    (if a.group_id is Some {
        0int
    } else {
        2int
    }) + (if a.version_id is Some {
        0int
    } else {
        1int
    })
}

/// Whether the artifacts run from most to least specific by where they belong.
pub open spec fn tiered(s: Seq<Artifact>) -> bool {
    forall|i: int, j: int| 0 <= i < j < s.len() ==> tier(#[trigger] s[i]) <= tier(#[trigger] s[j])
}

/// How explicit a range pattern is: a caret, a tilde, a `.x` wildcard, or
/// anything else.
pub open spec fn rank_of(p: Seq<char>) -> u8 {
    if p.len() > 0 && p[0] == '^' {
        3
    } else if p.len() > 0 && p[0] == '~' {
        2
    } else if p.len() >= 2 && p[p.len() - 2] == '.' && p[p.len() - 1] == 'x' {
        1
    } else {
        0
    }
}

/// How explicit a range pattern is.
fn pattern_rank(pattern: &str) -> (r: u8)
    ensures
        r == rank_of(pattern@),
{
    let cs = chars_of(pattern);
    let n = cs.len();
    if n > 0 && cs[0] == '^' {
        3
    } else if n > 0 && cs[0] == '~' {
        2
    } else if n >= 2 && cs[n - 2] == '.' && cs[n - 1] == 'x' {
        1
    } else {
        0
    }
}

/// The order of two ranks, the higher first.
pub open spec fn rank_order(pa: Seq<char>, pb: Seq<char>) -> Ordering {
    if rank_of(pb) < rank_of(pa) {
        Ordering::Less
    } else if rank_of(pb) == rank_of(pa) {
        Ordering::Equal
    } else {
        Ordering::Greater
    }
}

impl Artifact {
    /// Compare two range patterns whose ranges are incomparable by explicitness:
    /// caret before tilde before a `.x` wildcard before anything else.
    pub fn compare_pattern_specificity(pattern_a: &str, pattern_b: &str) -> (r: Ordering)
        ensures
            r == rank_order(pattern_a@, pattern_b@),
    {
        let ra = pattern_rank(pattern_a);
        let rb = pattern_rank(pattern_b);
        if rb < ra {
            Ordering::Less
        } else if rb == ra {
            Ordering::Equal
        } else {
            Ordering::Greater
        }
    }
}

/// Which of two artifacts is the more specific: the group's before the
/// unscoped, the exact before the range, the narrower of two ranges, and then
/// the more explicit pattern; any other two are equal.
pub open spec fn specificity_spec(a: Artifact, b: Artifact) -> Ordering {
    if (a.group_id is Some) != (b.group_id is Some) {
        if a.group_id is Some {
            Ordering::Less
        } else {
            Ordering::Greater
        }
    } else if a.version_id is Some && b.version_id is None {
        Ordering::Less
    } else if a.version_id is None && b.version_id is Some {
        Ordering::Greater
    } else if a.version_id is None && a.version_range_pattern is Some
        && b.version_range_pattern is Some && range_parses(a.version_range_pattern.unwrap()@)
        && range_parses(b.version_range_pattern.unwrap()@) {
        let pa = a.version_range_pattern.unwrap()@;
        let pb = b.version_range_pattern.unwrap()@;
        if range_allows_all(pa, pb) && !range_allows_all(pb, pa) {
            Ordering::Greater
        } else if range_allows_all(pb, pa) && !range_allows_all(pa, pb) {
            Ordering::Less
        } else {
            rank_order(pa, pb)
        }
    } else {
        Ordering::Equal
    }
}

/// Which of two artifacts is the more specific.
pub fn specificity(a: &Artifact, b: &Artifact) -> (r: Ordering)
    ensures
        r == specificity_spec(*a, *b),
{
    let a_scoped = a.group_id.is_some();
    let b_scoped = b.group_id.is_some();
    if a_scoped != b_scoped {
        return if a_scoped {
            Ordering::Less
        } else {
            Ordering::Greater
        };
    }
    let a_exact = a.version_id.is_some();
    let b_exact = b.version_id.is_some();
    if a_exact && !b_exact {
        return Ordering::Less;
    }
    if !a_exact && b_exact {
        return Ordering::Greater;
    }
    if !a_exact {
        if let (Some(pa), Some(pb)) = (&a.version_range_pattern, &b.version_range_pattern) {
            let ab = allows_all(pa.as_str(), pb.as_str());
            let ba = allows_all(pb.as_str(), pa.as_str());
            if let (Some(ab), Some(ba)) = (ab, ba) {
                if ab && !ba {
                    return Ordering::Greater;
                }
                if ba && !ab {
                    return Ordering::Less;
                }
                return Artifact::compare_pattern_specificity(pa.as_str(), pb.as_str());
            }
        }
    }
    Ordering::Equal
}

/// Whether the first artifact is strictly the more specific.
pub open spec fn before(a: Artifact, b: Artifact) -> bool {
    specificity_spec(a, b) == Ordering::Less
}

/// Whether the first artifact is strictly the more specific.
fn more_specific(a: &Artifact, b: &Artifact) -> (r: bool)
    ensures
        r == before(*a, *b),
{
    match specificity(a, b) {
        Ordering::Less => true,
        _ => false,
    }
}

/// Where two artifacts belong decides their order whenever it differs.
proof fn lemma_tier_decides(a: Artifact, b: Artifact)
    ensures
        tier(a) < tier(b) ==> before(a, b),
        tier(b) < tier(a) ==> !before(a, b),
{
}

/// Of two artifacts, at most one is strictly the more specific.
proof fn lemma_before_asymmetric(a: Artifact, b: Artifact)
    ensures
        before(a, b) ==> !before(b, a),
{
}

/// Whether no artifact comes right after one it is strictly more specific
/// than.
pub open spec fn no_adjacent_inversion(s: Seq<Artifact>) -> bool {
    forall|i: int| 0 <= i < s.len() - 1 ==> !before(#[trigger] s[i + 1], s[i])
}

/// Where an artifact goes when inserted into sorted artifacts, scanning back
/// from `j`: past every artifact it is strictly more specific than, and no
/// further.
pub open spec fn slot_spec(t: Seq<Artifact>, a: Artifact, j: int) -> int
    decreases j,
{
    if j <= 0 {
        0
    } else if before(a, t[j - 1]) {
        slot_spec(t, a, j - 1)
    } else {
        j
    }
}

/// Sorted artifacts with one more inserted where it goes.
pub open spec fn insert_sorted(t: Seq<Artifact>, a: Artifact) -> Seq<Artifact> {
    t.insert(slot_spec(t, a, t.len() as int), a)
}

/// The artifacts sorted most specific first: each in turn inserted after
/// every artifact already placed that it is not strictly more specific than.
pub open spec fn sorted_spec(s: Seq<Artifact>) -> Seq<Artifact>
    decreases s.len(),
{
    if s.len() == 0 {
        seq![]
    } else {
        insert_sorted(sorted_spec(s.drop_last()), s.last())
    }
}

/// Whether `p` places each of `s`'s artifacts at one of `input`'s positions,
/// each position once, and moves an artifact ahead of one that came before
/// it only where it is strictly the more specific.
pub open spec fn stable_placement(s: Seq<Artifact>, input: Seq<Artifact>, p: Seq<int>) -> bool {
    &&& p.len() == s.len()
    &&& s.len() == input.len()
    &&& forall|i: int| 0 <= i < p.len() ==> 0 <= #[trigger] p[i] < input.len() && s[i] == input[p[i]]
    &&& forall|i: int, j: int| 0 <= i < j < p.len() ==> #[trigger] p[i] != #[trigger] p[j]
    &&& forall|i: int, j: int| 0 <= i < j < p.len() && #[trigger] p[i] > #[trigger] p[j] ==> before(s[i], s[j])
}

impl Artifact {
    /// Sort artifacts most specific first, keeping the order of two the
    /// comparison does not separate.
    ///
    /// The result is `sorted_spec` of the input. It holds the same artifacts,
    /// runs from the caller's group to no group and, within each, from the
    /// exact version to ranges; no artifact comes right after one it is
    /// strictly more specific than; and an artifact is moved ahead of one that
    /// came before it only where it is strictly the more specific, so equally
    /// specific artifacts keep their order.
    pub fn sort_by_specificity(artifacts: &mut Vec<Artifact>)
        ensures
            final(artifacts)@ == sorted_spec(old(artifacts)@),
            final(artifacts)@.to_multiset() == old(artifacts)@.to_multiset(),
            tiered(final(artifacts)@),
            no_adjacent_inversion(final(artifacts)@),
            exists|p: Seq<int>| stable_placement(final(artifacts)@, old(artifacts)@, p),
    {
        let mut rest: Vec<Artifact> = Vec::new();
        std::mem::swap(&mut rest, artifacts);
        let ghost orig = rest@;
        let ghost mut k: int = 0;
        let ghost mut p: Seq<int> = seq![];
        let mut out: Vec<Artifact> = Vec::new();
        while rest.len() > 0
            invariant
                0 <= k <= orig.len(),
                rest@ == orig.skip(k),
                out@ == sorted_spec(orig.take(k)),
                out@.to_multiset() == orig.take(k).to_multiset(),
                tiered(out@),
                no_adjacent_inversion(out@),
                stable_placement(out@, orig.take(k), p),
            decreases rest@.len(),
        {
            let a = rest.remove(0);
            proof {
                assert(a == orig[k]);
                assert(orig.take(k + 1) =~= orig.take(k).push(orig[k]));
                assert(orig.take(k + 1).drop_last() =~= orig.take(k));
                assert(rest@ =~= orig.skip(k + 1));
            }
            let mut j: usize = out.len();
            loop
                invariant
                    j <= out@.len(),
                    forall|m: int| j <= m < out@.len() ==> before(a, #[trigger] out@[m]),
                    slot_spec(out@, a, out@.len() as int) == slot_spec(out@, a, j as int),
                ensures
                    j <= out@.len(),
                    forall|m: int| j <= m < out@.len() ==> before(a, #[trigger] out@[m]),
                    j == 0 || !before(a, out@[j - 1]),
                    slot_spec(out@, a, out@.len() as int) == j,
                decreases j,
            {
                if j == 0 {
                    break;
                }
                if !more_specific(&a, &out[j - 1]) {
                    break;
                }
                j = j - 1;
            }
            proof {
                assert forall|m: int| j <= m < out@.len() implies tier(a) <= tier(#[trigger] out@[m]) by {
                    lemma_tier_decides(a, out@[m]);
                }
                if j > 0 {
                    lemma_tier_decides(a, out@[j - 1]);
                    assert forall|m: int| 0 <= m < j implies tier(#[trigger] out@[m]) <= tier(a) by {
                        if m < j - 1 {
                            assert(tier(out@[m]) <= tier(out@[j - 1]));
                        }
                    }
                }
                if j < out@.len() {
                    assert(before(a, out@[j as int]));
                }
                if j > 0 {
                    assert(!before(a, out@[j - 1]));
                }
            }
            let ghost before_insert = out@;
            let ghost old_p = p;
            out.insert(j, a);
            proof {
                p = old_p.insert(j as int, k);
                assert(out@ == before_insert.insert(j as int, a));
                assert(out@ == insert_sorted(before_insert, a));
                assert forall|x: int, y: int| 0 <= x < y < out@.len() implies tier(
                    #[trigger] out@[x],
                ) <= tier(#[trigger] out@[y]) by {
                    if x < j && y > j {
                        assert(out@[x] == before_insert[x]);
                        assert(out@[y] == before_insert[y - 1]);
                    } else if x < j && y == j {
                        assert(out@[x] == before_insert[x]);
                    } else if x == j {
                        assert(out@[y] == before_insert[y - 1]);
                    } else if x < j {
                        assert(out@[x] == before_insert[x]);
                        assert(out@[y] == before_insert[y]);
                    } else {
                        assert(out@[x] == before_insert[x - 1]);
                        assert(out@[y] == before_insert[y - 1]);
                    }
                }
                assert forall|x: int| 0 <= x < out@.len() - 1 implies !before(#[trigger] out@[x + 1], out@[x]) by {
                    if x + 1 < j {
                        assert(out@[x] == before_insert[x] && out@[x + 1] == before_insert[x + 1]);
                        assert(!before(before_insert[x + 1], before_insert[x]));
                    } else if x + 1 == j {
                        assert(out@[x] == before_insert[x]);
                        assert(out@[x + 1] == a);
                        assert(!before(a, before_insert[j - 1]));
                    } else if x == j {
                        assert(out@[x] == a);
                        assert(out@[x + 1] == before_insert[x]);
                        assert(before(a, before_insert[x]));
                        lemma_before_asymmetric(a, before_insert[x]);
                    } else {
                        let w = x - 1;
                        assert(out@[x] == before_insert[w] && out@[x + 1] == before_insert[w + 1]);
                        assert(!before(before_insert[w + 1], before_insert[w]));
                    }
                }
                let taken = orig.take(k + 1);
                assert forall|i: int| 0 <= i < p.len() implies 0 <= #[trigger] p[i] < taken.len() && out@[i] == taken[p[i]] by {
                    if i < j {
                        assert(p[i] == old_p[i] && out@[i] == before_insert[i]);
                        assert(taken[old_p[i]] == orig.take(k)[old_p[i]]);
                    } else if i == j {
                        assert(p[i] == k);
                    } else {
                        assert(p[i] == old_p[i - 1] && out@[i] == before_insert[i - 1]);
                        assert(taken[old_p[i - 1]] == orig.take(k)[old_p[i - 1]]);
                    }
                }
                assert forall|x: int, y: int| 0 <= x < y < p.len() implies #[trigger] p[x] != #[trigger] p[y] by {
                    if x < j && y < j {
                        assert(p[x] == old_p[x] && p[y] == old_p[y]);
                    } else if x < j && y == j {
                        assert(p[x] == old_p[x]);
                    } else if x < j {
                        assert(p[x] == old_p[x] && p[y] == old_p[y - 1]);
                    } else if x == j {
                        assert(p[y] == old_p[y - 1]);
                    } else {
                        assert(p[x] == old_p[x - 1] && p[y] == old_p[y - 1]);
                    }
                }
                assert forall|x: int, y: int| 0 <= x < y < p.len() && #[trigger] p[x] > #[trigger] p[y] implies before(out@[x], out@[y]) by {
                    if x < j && y < j {
                        assert(p[x] == old_p[x] && p[y] == old_p[y]);
                        assert(out@[x] == before_insert[x] && out@[y] == before_insert[y]);
                    } else if x < j && y == j {
                        assert(p[x] == old_p[x]);
                    } else if x < j {
                        assert(p[x] == old_p[x] && p[y] == old_p[y - 1]);
                        assert(out@[x] == before_insert[x] && out@[y] == before_insert[y - 1]);
                    } else if x == j {
                        assert(out@[x] == a && out@[y] == before_insert[y - 1]);
                        assert(before(a, before_insert[y - 1]));
                    } else {
                        assert(p[x] == old_p[x - 1] && p[y] == old_p[y - 1]);
                        assert(out@[x] == before_insert[x - 1] && out@[y] == before_insert[y - 1]);
                    }
                }
                assert(stable_placement(out@, taken, p));
                k = k + 1;
            }
        }
        proof {
            assert(orig.take(k) =~= orig);
        }
        *artifacts = out;
    }
}

/// The artifacts that the scope sees and that apply to the version, out of
/// those read for it.
fn keep_covering(rows: Vec<Artifact>, target: u128, version: SemVer, scope: Scope) -> (r: Vec<Artifact>)
    ensures
        r@ == covering(rows@, target, version, scope),
{
    let mut rest = rows;
    let ghost orig = rest@;
    let ghost mut k: int = 0;
    let mut out: Vec<Artifact> = Vec::new();
    while rest.len() > 0
        invariant
            0 <= k <= orig.len(),
            rest@ == orig.skip(k),
            out@ == covering(orig.take(k), target, version, scope),
        decreases rest@.len(),
    {
        let a = rest.remove(0);
        proof {
            assert(a == orig[k]);
            assert(orig.take(k + 1).drop_last() =~= orig.take(k));
            assert(rest@ =~= orig.skip(k + 1));
        }
        let keep = scope.sees(a.group_id) && applies(&a, target, version);
        if keep {
            out.push(a);
        }
        proof {
            k = k + 1;
        }
    }
    proof {
        assert(orig.take(k) =~= orig);
    }
    out
}


/// Whether two artifacts are of one type and platform.
pub open spec fn same_kind(a: Artifact, b: Artifact) -> bool {
    a.artifact_type@ == b.artifact_type@ && a.platform@ == b.platform@
}

/// Whether the artifact at `i` is the one the scope is served of its type and
/// platform: the scope sees it, and sees none of that type and platform
/// before it.
pub open spec fn served_at(s: Seq<Artifact>, scope: Scope, i: int) -> bool {
    &&& scope.sees_spec(s[i].group_id)
    &&& forall|k: int|
        0 <= k < i && scope.sees_spec(s[k].group_id) ==> !same_kind(#[trigger] s[k], s[i])
}

/// The served artifacts among the first `n`, in order.
pub open spec fn offered_upto(s: Seq<Artifact>, scope: Scope, n: int) -> Seq<Artifact>
    decreases n,
{
    if n <= 0 {
        seq![]
    } else {
        let before = offered_upto(s, scope, n - 1);
        if served_at(s, scope, n - 1) {
            before.push(s[n - 1])
        } else {
            before
        }
    }
}

/// The served artifacts, in order.
pub open spec fn offered_spec(s: Seq<Artifact>, scope: Scope) -> Seq<Artifact> {
    offered_upto(s, scope, s.len() as int)
}


/// Whether the artifact is one the scope is served among the first `n`.
pub open spec fn served_among(s: Seq<Artifact>, scope: Scope, n: int, a: Artifact) -> bool {
    exists|k: int| 0 <= k < n && served_at(s, scope, k) && s[k] == a
}

/// Each artifact offered is one the scope sees, taken from the read.
proof fn lemma_offered_from(s: Seq<Artifact>, scope: Scope, n: int)
    requires
        0 <= n <= s.len(),
    ensures
        forall|i: int|
            0 <= i < offered_upto(s, scope, n).len() ==> served_among(s, scope, n, #[trigger] offered_upto(s, scope, n)[i]),
    decreases n,
{
    if n > 0 {
        lemma_offered_from(s, scope, n - 1);
        let prior = offered_upto(s, scope, n - 1);
        assert forall|i: int| 0 <= i < offered_upto(s, scope, n).len() implies served_among(s, scope, n, #[trigger] offered_upto(s, scope, n)[i]) by {
            if i < prior.len() {
                assert(offered_upto(s, scope, n)[i] == prior[i]);
                assert(served_among(s, scope, n - 1, prior[i]));
                let k = choose|k: int| 0 <= k < n - 1 && served_at(s, scope, k) && s[k] == prior[i];
                assert(0 <= k < n && served_at(s, scope, k) && s[k] == offered_upto(s, scope, n)[i]);
            } else {
                assert(served_at(s, scope, n - 1));
                assert(offered_upto(s, scope, n)[i] == s[n - 1]);
            }
        }
    }
}

/// What a scope is offered holds one artifact of each type and platform at
/// most, and only artifacts the scope sees.
pub proof fn law_one_artifact_per_kind(s: Seq<Artifact>, scope: Scope)
    ensures
        forall|i: int, j: int|
            0 <= i < j < offered_spec(s, scope).len() ==> !same_kind(
                #[trigger] offered_spec(s, scope)[i],
                #[trigger] offered_spec(s, scope)[j],
            ),
        forall|i: int|
            0 <= i < offered_spec(s, scope).len() ==> scope.sees_spec(
                (#[trigger] offered_spec(s, scope)[i]).group_id,
            ),
        forall|i: int, j: int|
            0 <= i < j < offered_spec(s, scope).len() ==> (#[trigger] offered_spec(s, scope)[i]).artifact_type@
                != (#[trigger] offered_spec(s, scope)[j]).artifact_type@ || offered_spec(s, scope)[i].platform@
                != offered_spec(s, scope)[j].platform@,
{
    lemma_one_per_kind_upto(s, scope, s.len() as int);
    assert forall|i: int, j: int| 0 <= i < j < offered_spec(s, scope).len() implies (#[trigger] offered_spec(s, scope)[i]).artifact_type@
        != (#[trigger] offered_spec(s, scope)[j]).artifact_type@ || offered_spec(s, scope)[i].platform@
        != offered_spec(s, scope)[j].platform@ by {
        assert(!same_kind(offered_spec(s, scope)[i], offered_spec(s, scope)[j]));
    }
}

proof fn lemma_one_per_kind_upto(s: Seq<Artifact>, scope: Scope, n: int)
    requires
        0 <= n <= s.len(),
    ensures
        forall|i: int, j: int|
            0 <= i < j < offered_upto(s, scope, n).len() ==> !same_kind(
                #[trigger] offered_upto(s, scope, n)[i],
                #[trigger] offered_upto(s, scope, n)[j],
            ),
        forall|i: int|
            0 <= i < offered_upto(s, scope, n).len() ==> scope.sees_spec(
                (#[trigger] offered_upto(s, scope, n)[i]).group_id,
            ),
    decreases n,
{
    lemma_offered_from(s, scope, n);
    if n > 0 {
        lemma_one_per_kind_upto(s, scope, n - 1);
        lemma_offered_from(s, scope, n - 1);
        let prior = offered_upto(s, scope, n - 1);
        let now = offered_upto(s, scope, n);
        assert forall|i: int, j: int| 0 <= i < j < now.len() implies !same_kind(#[trigger] now[i], #[trigger] now[j]) by {
            if j < prior.len() {
                assert(now[i] == prior[i] && now[j] == prior[j]);
            } else {
                assert(now[i] == prior[i]);
                assert(now[j] == s[n - 1]);
                assert(served_among(s, scope, n - 1, prior[i]));
                let k = choose|k: int| 0 <= k < n - 1 && served_at(s, scope, k) && s[k] == prior[i];
                assert(served_at(s, scope, n - 1));
                assert(scope.sees_spec(s[k].group_id));
                assert(!same_kind(s[k], s[n - 1]));
            }
        }
        assert forall|i: int| 0 <= i < now.len() implies scope.sees_spec((#[trigger] now[i]).group_id) by {
            assert(served_among(s, scope, n, now[i]));
            let k = choose|k: int| 0 <= k < n && served_at(s, scope, k) && s[k] == now[i];
        }
    }
}

/// Of two range artifacts of no group whose patterns both read, where one
/// range admits every version the other admits and the other does not admit
/// every version of the first, the narrower sorts first whichever order the
/// two came in, and of two of one type and platform only the narrower is
/// served to an unscoped caller.
pub proof fn law_the_narrower_range_comes_first(broad: Artifact, narrow: Artifact)
    requires
        broad.group_id is None,
        narrow.group_id is None,
        broad.version_id is None,
        narrow.version_id is None,
        broad.version_range_pattern is Some,
        narrow.version_range_pattern is Some,
        range_parses(broad.version_range_pattern.unwrap()@),
        range_parses(narrow.version_range_pattern.unwrap()@),
        range_allows_all(broad.version_range_pattern.unwrap()@, narrow.version_range_pattern.unwrap()@),
        !range_allows_all(narrow.version_range_pattern.unwrap()@, broad.version_range_pattern.unwrap()@),
    ensures
        sorted_spec(seq![broad, narrow]) == seq![narrow, broad],
        sorted_spec(seq![narrow, broad]) == seq![narrow, broad],
        broad.artifact_type@ == narrow.artifact_type@ && broad.platform@ == narrow.platform@
            ==> offered_spec(sorted_spec(seq![broad, narrow]), Scope::Unscoped) == seq![narrow],
{
    assert(before(narrow, broad));
    assert(!before(broad, narrow));
    assert(sorted_spec(seq![broad]) =~= seq![broad]) by {
        assert(seq![broad].drop_last() =~= Seq::<Artifact>::empty());
        assert(sorted_spec(Seq::<Artifact>::empty()) =~= Seq::<Artifact>::empty());
        assert(slot_spec(Seq::<Artifact>::empty(), broad, 0) == 0);
        assert(Seq::<Artifact>::empty().insert(0, broad) =~= seq![broad]);
    }
    assert(sorted_spec(seq![narrow]) =~= seq![narrow]) by {
        assert(seq![narrow].drop_last() =~= Seq::<Artifact>::empty());
        assert(sorted_spec(Seq::<Artifact>::empty()) =~= Seq::<Artifact>::empty());
        assert(slot_spec(Seq::<Artifact>::empty(), narrow, 0) == 0);
        assert(Seq::<Artifact>::empty().insert(0, narrow) =~= seq![narrow]);
    }
    assert(seq![broad, narrow].drop_last() =~= seq![broad]);
    assert(seq![narrow, broad].drop_last() =~= seq![narrow]);
    assert(slot_spec(seq![broad], narrow, 1) == 0) by {
        assert(slot_spec(seq![broad], narrow, 0) == 0);
    }
    assert(seq![broad].insert(0, narrow) =~= seq![narrow, broad]);
    assert(slot_spec(seq![narrow], broad, 1) == 1);
    assert(seq![narrow].insert(1, broad) =~= seq![narrow, broad]);
    let sorted = seq![narrow, broad];
    assert(sorted_spec(seq![broad, narrow]) == sorted);
    if broad.artifact_type@ == narrow.artifact_type@ && broad.platform@ == narrow.platform@ {
        let u = Scope::Unscoped;
        assert(served_at(sorted, u, 0));
        assert(!served_at(sorted, u, 1)) by {
            assert(u.sees_spec(sorted[0].group_id));
            assert(same_kind(sorted[0], sorted[1]));
        }
        assert(offered_upto(sorted, u, 0) =~= Seq::<Artifact>::empty());
        assert(offered_upto(sorted, u, 1) =~= seq![narrow]);
        assert(offered_upto(sorted, u, 2) =~= seq![narrow]);
    }
}

/// Whether a pattern starts with this character.
pub open spec fn starts_with(p: Seq<char>, c: char) -> bool {
    p.len() > 0 && p[0] == c
}

/// Whether a pattern ends in a `.x` wildcard.
pub open spec fn ends_in_wildcard(p: Seq<char>) -> bool {
    p.len() >= 2 && p[p.len() - 2] == '.' && p[p.len() - 1] == 'x'
}

/// Of two range artifacts of no group whose patterns both read and neither of
/// whose ranges is strictly the narrower, the more explicit pattern sorts
/// first whichever order the two came in: a caret before any other, a tilde
/// before a `.x` wildcard or anything else, and a `.x` wildcard before a
/// pattern that is none of these.
pub proof fn law_the_more_explicit_pattern_comes_first(a: Artifact, b: Artifact)
    requires
        a.group_id is None,
        b.group_id is None,
        a.version_id is None,
        b.version_id is None,
        a.version_range_pattern is Some,
        b.version_range_pattern is Some,
        range_parses(a.version_range_pattern.unwrap()@),
        range_parses(b.version_range_pattern.unwrap()@),
        range_allows_all(a.version_range_pattern.unwrap()@, b.version_range_pattern.unwrap()@)
            == range_allows_all(b.version_range_pattern.unwrap()@, a.version_range_pattern.unwrap()@),
        ({
            let pa = a.version_range_pattern.unwrap()@;
            let pb = b.version_range_pattern.unwrap()@;
            ||| starts_with(pa, '^') && !starts_with(pb, '^')
            ||| starts_with(pa, '~') && !starts_with(pb, '^') && !starts_with(pb, '~')
            ||| ends_in_wildcard(pa) && !starts_with(pa, '^') && !starts_with(pa, '~') && !starts_with(pb, '^')
                && !starts_with(pb, '~') && !ends_in_wildcard(pb)
        }),
    ensures
        sorted_spec(seq![a, b]) == seq![a, b],
        sorted_spec(seq![b, a]) == seq![a, b],
{
    assert(before(a, b));
    assert(!before(b, a));
    assert(sorted_spec(seq![a]) =~= seq![a]) by {
        assert(seq![a].drop_last() =~= Seq::<Artifact>::empty());
        assert(sorted_spec(Seq::<Artifact>::empty()) =~= Seq::<Artifact>::empty());
        assert(slot_spec(Seq::<Artifact>::empty(), a, 0) == 0);
        assert(Seq::<Artifact>::empty().insert(0, a) =~= seq![a]);
    }
    assert(sorted_spec(seq![b]) =~= seq![b]) by {
        assert(seq![b].drop_last() =~= Seq::<Artifact>::empty());
        assert(sorted_spec(Seq::<Artifact>::empty()) =~= Seq::<Artifact>::empty());
        assert(slot_spec(Seq::<Artifact>::empty(), b, 0) == 0);
        assert(Seq::<Artifact>::empty().insert(0, b) =~= seq![b]);
    }
    assert(seq![a, b].drop_last() =~= seq![a]);
    assert(seq![b, a].drop_last() =~= seq![b]);
    assert(slot_spec(seq![a], b, 1) == 1);
    assert(seq![a].insert(1, b) =~= seq![a, b]);
    assert(slot_spec(seq![b], a, 1) == 0) by {
        assert(slot_spec(seq![b], a, 0) == 0);
    }
    assert(seq![b].insert(0, a) =~= seq![a, b]);
}

/// An artifact the scope is served is among what it is offered.
proof fn lemma_served_is_offered(s: Seq<Artifact>, scope: Scope, i: int, n: int)
    requires
        0 <= i < n <= s.len(),
        served_at(s, scope, i),
    ensures
        offered_upto(s, scope, n).contains(s[i]),
    decreases n,
{
    if n == i + 1 {
        assert(offered_upto(s, scope, n).last() == s[i]);
    } else {
        lemma_served_is_offered(s, scope, i, n - 1);
        let prior = offered_upto(s, scope, n - 1);
        let k = choose|k: int| 0 <= k < prior.len() && prior[k] == s[i];
        if served_at(s, scope, n - 1) {
            assert(offered_upto(s, scope, n)[k] == s[i]);
        }
    }
}

/// A scope is offered every artifact it sees whose type and platform, taken
/// together, no artifact it sees earlier in the list shares: artifacts of
/// different types are never taken for one another whatever their platforms,
/// nor those of different platforms whatever their types.
pub proof fn law_each_new_type_and_platform_is_offered(s: Seq<Artifact>, scope: Scope, i: int)
    requires
        0 <= i < s.len(),
        scope.sees_spec(s[i].group_id),
        forall|k: int|
            0 <= k < i && scope.sees_spec(s[k].group_id) ==> (#[trigger] s[k].artifact_type@ != s[i].artifact_type@
                || s[k].platform@ != s[i].platform@),
    ensures
        offered_spec(s, scope).contains(s[i]),
{
    assert forall|k: int| 0 <= k < i && scope.sees_spec(s[k].group_id) implies !same_kind(#[trigger] s[k], s[i]) by {
        assert(s[k].artifact_type@ != s[i].artifact_type@ || s[k].platform@ != s[i].platform@);
    }
    assert(served_at(s, scope, i));
    lemma_served_is_offered(s, scope, i, s.len() as int);
}

/// Whether two artifacts are of one type and platform.
fn same_kind_of(a: &Artifact, b: &Artifact) -> (r: bool)
    ensures
        r == same_kind(*a, *b),
{
    str_eq(a.artifact_type.as_str(), b.artifact_type.as_str()) && str_eq(
        a.platform.as_str(),
        b.platform.as_str(),
    )
}

/// Whether the artifact at `i` is the one the scope is served of its kind.
fn is_served(s: &Vec<Artifact>, scope: Scope, i: usize) -> (r: bool)
    requires
        i < s@.len(),
    ensures
        r == served_at(s@, scope, i as int),
{
    if !scope.sees(s[i].group_id) {
        return false;
    }
    let mut k: usize = 0;
    while k < i
        invariant
            i < s@.len(),
            k <= i,
            scope.sees_spec(s@[i as int].group_id),
            forall|m: int|
                0 <= m < k && scope.sees_spec(s@[m].group_id) ==> !same_kind(
                    #[trigger] s@[m],
                    s@[i as int],
                ),
        decreases i - k,
    {
        if scope.sees(s[k].group_id) && same_kind_of(&s[k], &s[i]) {
            return false;
        }
        k = k + 1;
    }
    true
}

impl Artifact {
    /// The artifacts of a sorted match set that the scope is actually served: the
    /// first it sees of each type and platform.
    pub fn offered(artifacts: Vec<Artifact>, scope: Scope) -> (r: Vec<Artifact>)
        ensures
            r@ == offered_spec(artifacts@, scope),
    {
        let mut flags: Vec<bool> = Vec::new();
        let mut i: usize = 0;
        while i < artifacts.len()
            invariant
                i <= artifacts@.len(),
                flags@.len() == i,
                forall|m: int| 0 <= m < i ==> flags@[m] == served_at(artifacts@, scope, m),
            decreases artifacts@.len() - i,
        {
            let f = is_served(&artifacts, scope, i);
            flags.push(f);
            i = i + 1;
        }
        let mut rest = artifacts;
        let ghost orig = rest@;
        let mut k: usize = 0;
        let mut out: Vec<Artifact> = Vec::new();
        while rest.len() > 0
            invariant
                k <= orig.len(),
                flags@.len() == orig.len(),
                forall|m: int| 0 <= m < orig.len() ==> flags@[m] == served_at(orig, scope, m),
                rest@ == orig.skip(k as int),
                rest@.len() == orig.len() - k,
                orig.len() <= usize::MAX,
                out@ == offered_upto(orig, scope, k as int),
            decreases rest@.len(),
        {
            let a = rest.remove(0);
            proof {
                assert(a == orig[k as int]);
                assert(rest@ =~= orig.skip(k + 1));
            }
            if flags[k] {
                out.push(a);
            }
            k = k + 1;
        }
        out
    }
}

/// Whether some artifact the scope is served carries this identifier.
pub open spec fn served_id(s: Seq<Artifact>, scope: Scope, id: u128) -> bool {
    exists|i: int| 0 <= i < s.len() && served_at(s, scope, i) && #[trigger] s[i].id == id
}

/// The identifiers of the artifacts the scope is served.
fn served_ids(s: &Vec<Artifact>, scope: Scope, ids: &mut Vec<u128>)
    ensures
        forall|id: u128|
            #[trigger] final(ids)@.contains(id) <==> (old(ids)@.contains(id) || served_id(
                s@,
                scope,
                id,
            )),
{
    let mut i: usize = 0;
    while i < s.len()
        invariant
            i <= s@.len(),
            forall|id: u128|
                #[trigger] ids@.contains(id) <==> (old(ids)@.contains(id) || exists|m: int|
                    0 <= m < i && served_at(s@, scope, m) && #[trigger] s@[m].id == id),
        decreases s@.len() - i,
    {
        let ghost was = ids@;
        if is_served(s, scope, i) {
            ids.push(s[i].id);
            proof {
                assert forall|id: u128| #[trigger] ids@.contains(id) <==> (old(ids)@.contains(id)
                    || exists|m: int| 0 <= m < i + 1 && served_at(s@, scope, m) && #[trigger] s@[m].id
                    == id) by {
                    if ids@.contains(id) && !was.contains(id) {
                        assert(ids@[ids@.len() - 1] == id) by {
                            let x = choose|x: int| 0 <= x < ids@.len() && ids@[x] == id;
                            if x < was.len() {
                                assert(was[x] == id);
                            }
                        }
                        assert(s@[i as int].id == id);
                    }
                    if was.contains(id) {
                        let x = choose|x: int| 0 <= x < was.len() && was[x] == id;
                        assert(ids@[x] == id);
                    }
                    if (exists|m: int| 0 <= m < i + 1 && served_at(s@, scope, m) && #[trigger] s@[m].id == id) && !(exists|m: int| 0 <= m < i && served_at(s@, scope, m) && #[trigger] s@[m].id == id) {
                        assert(ids@[ids@.len() - 1] == id);
                    }
                }
            }
        } else {
            proof {
                assert forall|id: u128| #[trigger] ids@.contains(id) <==> (old(ids)@.contains(id)
                    || exists|m: int| 0 <= m < i + 1 && served_at(s@, scope, m) && #[trigger] s@[m].id
                    == id) by {
                    if exists|m: int| 0 <= m < i + 1 && served_at(s@, scope, m) && #[trigger] s@[m].id == id {
                        let m = choose|m: int| 0 <= m < i + 1 && served_at(s@, scope, m) && #[trigger] s@[m].id == id;
                        assert(m < i);
                    }
                }
            }
        }
        i = i + 1;
    }
}

/// Whether an artifact displaces this one: a range artifact of the same type
/// and platform, of no group or this one's, that is not this one and whose
/// range admits the version.
pub open spec fn displaces(other: Artifact, a: Artifact, v: SemVer) -> bool {
    &&& same_kind(other, a)
    &&& (other.group_id is None || other.group_id == a.group_id)
    &&& other.id != a.id
    &&& other.version_range_pattern matches Some(p) && range_parses(p@) && range_satisfied(
        p@,
        v.major,
        v.minor,
        v.patch,
    )
}

/// Whether an exact artifact displaces a range artifact that also matches.
pub open spec fn overridden_spec(all: Seq<Artifact>, a: Artifact, v: SemVer) -> bool {
    a.version_id is Some && exists|k: int| 0 <= k < all.len() && displaces(#[trigger] all[k], a, v)
}

impl Artifact {
    /// Whether an exact artifact displaces a range artifact that also matches.
    pub fn overridden_range(all: &Vec<Artifact>, artifact: &Artifact, version: SemVer) -> (r: bool)
        ensures
            r == overridden_spec(all@, *artifact, version),
    {
        if artifact.version_id.is_none() {
            return false;
        }
        let mut k: usize = 0;
        while k < all.len()
            invariant
                k <= all@.len(),
                artifact.version_id is Some,
                forall|m: int| 0 <= m < k ==> !displaces(#[trigger] all@[m], *artifact, version),
            decreases all@.len() - k,
        {
            let other = &all[k];
            if same_kind_of(other, artifact) && (other.group_id.is_none() || other.group_id
                == artifact.group_id) && other.id != artifact.id {
                if let Some(p) = &other.version_range_pattern {
                    if let Some(true) = satisfies(p.as_str(), version) {
                        assert(displaces(all@[k as int], *artifact, version));
                        assert(artifact.version_id is Some);
                        assert(0 <= k < all@.len());
                        assert(overridden_spec(all@, *artifact, version));
                        return true;
                    }
                }
            }
            k = k + 1;
        }
        false
    }
}

/// Whether the served set of some resolved scope carries this identifier: a
/// fleet-wide view resolves the unscoped read and each group present, any
/// other view resolves itself.
pub open spec fn served_somewhere(s: Seq<Artifact>, scope: Scope, id: u128) -> bool {
    match scope {
        Scope::Fleet => served_id(s, Scope::Unscoped, id) || exists|k: int|
            0 <= k < s.len() && (#[trigger] s[k]).group_id is Some && served_id(
                s,
                Scope::Group(s[k].group_id.unwrap()),
                id,
            ),
        _ => served_id(s, scope, id),
    }
}

impl Artifact {
    /// Every artifact of a version that the scope may see, out of those read for
    /// it, sorted most specific first and not deduplicated.
    pub fn get_for_version_all_matches(rows: Vec<Artifact>, target_version_id: u128, version: SemVer, scope: Scope) -> (r: Vec<Artifact>)
        ensures
            r@ == sorted_spec(covering(rows@, target_version_id, version, scope)),
            r@.to_multiset() == covering(rows@, target_version_id, version, scope).to_multiset(),
            tiered(r@),
            no_adjacent_inversion(r@),
            exists|p: Seq<int>| stable_placement(r@, covering(rows@, target_version_id, version, scope), p),
    {
        let mut kept = keep_covering(rows, target_version_id, version, scope);
        Artifact::sort_by_specificity(&mut kept);
        kept
    }
}

impl Artifact {
    /// The artifacts of a version that the scope may see, out of those read for
    /// it: one per type and platform, the most specific that applies.
    pub fn get_for_version(rows: Vec<Artifact>, target_version_id: u128, version: SemVer, scope: Scope) -> (r: Vec<Artifact>)
        ensures
            r@ == offered_spec(sorted_spec(covering(rows@, target_version_id, version, scope)), scope),
    {
        let matches = Artifact::get_for_version_all_matches(rows, target_version_id, version, scope);
        Artifact::offered(matches, scope)
    }
}

/// Whether the identifier is among these.
fn holds_id(ids: &Vec<u128>, id: u128) -> (r: bool)
    ensures
        r == ids@.contains(id),
{
    let mut i: usize = 0;
    while i < ids.len()
        invariant
            i <= ids@.len(),
            forall|m: int| 0 <= m < i ==> ids@[m] != id,
        decreases ids@.len() - i,
    {
        if ids[i] == id {
            assert(ids@[i as int] == id);
            return true;
        }
        i = i + 1;
    }
    false
}

/// The identifiers of the artifacts some resolved scope is served.
fn served_anywhere(s: &Vec<Artifact>, scope: Scope) -> (ids: Vec<u128>)
    ensures
        forall|id: u128| #[trigger] ids@.contains(id) <==> served_somewhere(s@, scope, id),
{
    let mut ids: Vec<u128> = Vec::new();
    match scope {
        Scope::Fleet => {
            served_ids(s, Scope::Unscoped, &mut ids);
            let mut k: usize = 0;
            while k < s.len()
                invariant
                    k <= s@.len(),
                    forall|id: u128|
                        #[trigger] ids@.contains(id) <==> (served_id(s@, Scope::Unscoped, id)
                            || exists|j: int|
                            0 <= j < k && (#[trigger] s@[j]).group_id is Some && served_id(
                                s@,
                                Scope::Group(s@[j].group_id.unwrap()),
                                id,
                            )),
                decreases s@.len() - k,
            {
                if let Some(g) = s[k].group_id {
                    let ghost was = ids@;
                    served_ids(s, Scope::Group(g), &mut ids);
                    proof {
                        assert forall|id: u128| #[trigger] ids@.contains(id) <==> (served_id(
                            s@,
                            Scope::Unscoped,
                            id,
                        ) || exists|j: int|
                            0 <= j < k + 1 && (#[trigger] s@[j]).group_id is Some && served_id(
                                s@,
                                Scope::Group(s@[j].group_id.unwrap()),
                                id,
                            )) by {
                            if served_id(s@, Scope::Group(g), id) {
                                assert(s@[k as int].group_id is Some);
                            }
                            if exists|j: int|
                                0 <= j < k + 1 && (#[trigger] s@[j]).group_id is Some && served_id(
                                    s@,
                                    Scope::Group(s@[j].group_id.unwrap()),
                                    id,
                                ) {
                                let j = choose|j: int|
                                    0 <= j < k + 1 && (#[trigger] s@[j]).group_id is Some
                                        && served_id(s@, Scope::Group(s@[j].group_id.unwrap()), id);
                                if j < k {
                                    assert(was.contains(id));
                                }
                            }
                        }
                    }
                } else {
                    proof {
                        assert forall|id: u128| #[trigger] ids@.contains(id) <==> (served_id(
                            s@,
                            Scope::Unscoped,
                            id,
                        ) || exists|j: int|
                            0 <= j < k + 1 && (#[trigger] s@[j]).group_id is Some && served_id(
                                s@,
                                Scope::Group(s@[j].group_id.unwrap()),
                                id,
                            )) by {
                            if exists|j: int|
                                0 <= j < k + 1 && (#[trigger] s@[j]).group_id is Some && served_id(
                                    s@,
                                    Scope::Group(s@[j].group_id.unwrap()),
                                    id,
                                ) {
                                let j = choose|j: int|
                                    0 <= j < k + 1 && (#[trigger] s@[j]).group_id is Some
                                        && served_id(s@, Scope::Group(s@[j].group_id.unwrap()), id);
                                assert(j < k);
                            }
                        }
                    }
                }
                k = k + 1;
            }
        },
        _ => {
            served_ids(s, scope, &mut ids);
        },
    }
    ids
}

/// The artifacts of a tuple list.
pub open spec fn firsts(r: Seq<(Artifact, bool, bool, bool)>) -> Seq<Artifact> {
    r.map_values(|t: (Artifact, bool, bool, bool)| t.0)
}

/// Each matching artifact with what an operator reads beside it: whether it
/// is pinned to the version, whether it displaces a range artifact that also
/// matches, and whether some resolved scope is served it.
pub fn with_metadata(
    matching: Vec<Artifact>,
    ranges: &Vec<Artifact>,
    target_version_id: u128,
    version: SemVer,
    scope: Scope,
) -> (r: Vec<(Artifact, bool, bool, bool)>)
    ensures
        firsts(r@) == matching@,
        forall|i: int|
            0 <= i < r@.len() ==> {
                &&& (#[trigger] r@[i]).1 == (matching@[i].version_id == Some(target_version_id))
                &&& r@[i].2 == overridden_spec(ranges@, matching@[i], version)
                &&& r@[i].3 == served_somewhere(matching@, scope, matching@[i].id)
            },
{
    let ids = served_anywhere(&matching, scope);
    let mut rest = matching;
    let ghost orig = rest@;
    assert(orig.len() == rest.len());
    let mut k: usize = 0;
    let mut out: Vec<(Artifact, bool, bool, bool)> = Vec::new();
    while rest.len() > 0
        invariant
            k <= orig.len(),
            orig.len() <= usize::MAX,
            rest@ == orig.skip(k as int),
            rest@.len() == orig.len() - k,
            forall|id: u128| #[trigger] ids@.contains(id) <==> served_somewhere(orig, scope, id),
            firsts(out@) == orig.take(k as int),
            forall|i: int|
                0 <= i < out@.len() ==> {
                    &&& (#[trigger] out@[i]).1 == (orig[i].version_id == Some(target_version_id))
                    &&& out@[i].2 == overridden_spec(ranges@, orig[i], version)
                    &&& out@[i].3 == served_somewhere(orig, scope, orig[i].id)
                },
        decreases rest@.len(),
    {
        let a = rest.remove(0);
        proof {
            assert(a == orig[k as int]);
            assert(rest@ =~= orig.skip(k + 1));
        }
        let is_exact = a.version_id == Some(target_version_id);
        let overrides = Artifact::overridden_range(ranges, &a, version);
        let used = holds_id(&ids, a.id);
        let ghost was = out@;
        out.push((a, is_exact, overrides, used));
        proof {
            assert(firsts(was) == orig.take(k as int));
            assert(firsts(was).len() == was.len());
            assert(was.len() == k);
            assert(out@ == was.push((a, is_exact, overrides, used)));
            assert forall|j: int| 0 <= j < k + 1 implies #[trigger] firsts(out@)[j] == orig.take(k + 1)[j] by {
                if j < k {
                    assert(out@[j] == was[j]);
                    assert(firsts(was)[j] == orig.take(k as int)[j]);
                }
            }
            assert(firsts(out@) =~= orig.take(k + 1));
        }
        k = k + 1;
    }
    proof {
        assert(orig.take(k as int) =~= orig);
    }
    out
}

impl Artifact {
    /// Every artifact of a version that the scope may see, out of those read for
    /// it and most specific first, with what an operator reads beside each.
    pub fn get_for_version_all_matches_with_metadata(
        rows: Vec<Artifact>,
        ranges: &Vec<Artifact>,
        target_version_id: u128,
        version: SemVer,
        scope: Scope,
    ) -> (r: Vec<(Artifact, bool, bool, bool)>)
        ensures
            firsts(r@) == sorted_spec(covering(rows@, target_version_id, version, scope)),
            firsts(r@).to_multiset() == covering(rows@, target_version_id, version, scope).to_multiset(),
            tiered(firsts(r@)),
            no_adjacent_inversion(firsts(r@)),
            forall|i: int|
                0 <= i < r@.len() ==> {
                    &&& (#[trigger] r@[i]).1 == (r@[i].0.version_id == Some(target_version_id))
                    &&& r@[i].2 == overridden_spec(ranges@, r@[i].0, version)
                    &&& r@[i].3 == served_somewhere(firsts(r@), scope, r@[i].0.id)
                },
    {
        let matching = Artifact::get_for_version_all_matches(rows, target_version_id, version, scope);
        let r = with_metadata(matching, ranges, target_version_id, version, scope);
        proof {
            assert forall|i: int| 0 <= i < r@.len() implies (#[trigger] r@[i]).0 == firsts(r@)[i] by {}
        }
        r
    }
}

} // verus!
